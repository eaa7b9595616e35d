use synth::{Outcome, PartialToken, Response, Source, StringExtras, Template, Token, TokenIterator, Type};

fn strings(v: &[&str]) -> Vec<String> {
    let mut out: Vec<String> = Vec::new();
    for s in v {
        out.push((*s).to_string());
    }
    out
}

fn compiled(lines: &[&str]) -> Template {
    let owned = strings(lines);
    let mut src = Source::new("template", None, &owned);
    let out = src.tokenize();
    assert!(!out.is_error());
    let mut t = Template::new(src);
    let out = t.parse();
    assert!(!out.is_error());
    t
}

#[test]
fn a_rule_with_one_variant_compiles() {
    let t = compiled(&["stmt:", "    v := x : WORD EOL"]);
    let rules = t.rules.as_ref().unwrap();
    assert_eq!(rules.len(), 1);
    let rule = &rules[0];
    assert_eq!(rule.name.lexeme.as_ref().unwrap(), "stmt");
    assert!(rule.is_matching);
    assert_eq!(rule.variants.len(), 1);
    let v = &rule.variants[0];
    assert_eq!(v.name.lexeme.as_ref().unwrap(), "v");
    assert_eq!(v.rule, "stmt");
    // The pattern holds the two elements; the capture points at the first.
    assert_eq!(v.tokens.len(), 2);
    assert_eq!(v.tokens[0].lexeme.as_ref().unwrap(), "WORD");
    assert_eq!(v.tokens[1].lexeme.as_ref().unwrap(), "EOL");
    assert_eq!(v.aliases.len(), 1);
    assert_eq!(v.aliases[0].name.lexeme.as_ref().unwrap(), "x");
    assert_eq!(v.aliases[0].token, 0);
}

#[test]
fn helper_rules_are_not_matching() {
    let t = compiled(&["stmt:", "    v := WORD EOL", "helper!", "    w := NUMBER"]);
    let rules = t.rules.as_ref().unwrap();
    assert_eq!(rules.len(), 2);
    assert!(rules[0].is_matching);
    assert!(!rules[1].is_matching);
    assert!(t.find_rule("stmt").is_some());
    assert!(t.find_rule("helper").is_some());
    assert!(t.find_rule("absent").is_none());
    assert!(rules[0].variant("v").is_some());
    assert!(rules[0].variant("w").is_none());
}

#[test]
fn an_empty_rule_body_is_an_error() {
    let owned = strings(&["stmt:"]);
    let mut src = Source::new("template", None, &owned);
    src.tokenize();
    let mut t = Template::new(src);
    let out = t.parse();
    assert!(out.is_error());
    let msgs = out.response.as_ref().unwrap();
    match &msgs[0] {
        synth::Response::Error(_, m) => assert_eq!(m, "empty rule: stmt"),
        _ => panic!("expected an error entry"),
    }
    match &msgs[msgs.len() - 1] {
        synth::Response::Error(_, m) => assert_eq!(m, "aborting due to previous errors"),
        _ => panic!("expected an error entry"),
    }
}

#[test]
fn a_variant_without_a_pattern_is_an_error() {
    let owned = strings(&["stmt:", "    v :="]);
    let mut src = Source::new("template", None, &owned);
    src.tokenize();
    let mut t = Template::new(src);
    let out = t.parse();
    assert!(out.is_error());
    match &out.response.as_ref().unwrap()[0] {
        synth::Response::Error(_, m) => assert_eq!(m, "variant has no pattern: v"),
        _ => panic!("expected an error entry"),
    }
}

#[test]
fn an_unknown_type_name_under_a_capture_is_an_error() {
    let owned = strings(&["stmt:", "    v := x : NONSUCH EOL"]);
    let mut src = Source::new("template", None, &owned);
    src.tokenize();
    let mut t = Template::new(src);
    let out = t.parse();
    assert!(out.is_error());
    match &out.response.as_ref().unwrap()[0] {
        synth::Response::Error(_, m) => assert_eq!(m, "undefined type: v"),
        _ => panic!("expected an error entry"),
    }
}

#[test]
fn a_capture_on_a_non_word_is_an_error() {
    let owned = strings(&["stmt:", "    v := x : 5 EOL"]);
    let mut src = Source::new("template", None, &owned);
    src.tokenize();
    let mut t = Template::new(src);
    let out = t.parse();
    assert!(out.is_error());
    match &out.response.as_ref().unwrap()[0] {
        synth::Response::Error(_, m) => assert_eq!(m, "can't alias non-word: v"),
        _ => panic!("expected an error entry"),
    }
}

#[test]
fn segments_are_parsed_and_kept_inert() {
    let t = compiled(&[
        "stmt:",
        "    v := WORD EOL",
        "    [extra]",
        "        a b",
    ]);
    let rules = t.rules.as_ref().unwrap();
    assert_eq!(rules.len(), 1);
    assert_eq!(rules[0].segments.len(), 1);
    let seg = &rules[0].segments[0];
    assert_eq!(seg.name.lexeme.as_ref().unwrap(), "extra");
    assert_eq!(seg.rule, "stmt");
    assert!(seg.variant.is_none());
    assert!(rules[0].segment("extra").is_some());
    assert!(rules[0].segment("absent").is_none());
    // The segment's token block was collected.
    assert!(seg.tokens.len() >= 2);
    assert_eq!(seg.tokens[0].lexeme.as_ref().unwrap(), "a");
    assert_eq!(seg.tokens[1].lexeme.as_ref().unwrap(), "b");
}

#[test]
fn segments_resolve_their_owners() {
    let t = compiled(&[
        "stmt:",
        "    v := WORD EOL",
        "        [sub]",
        "            a",
        "    [extra]",
        "        b",
    ]);
    let rules = t.rules.as_ref().unwrap();
    let rule = &rules[0];
    let v = &rule.variants[0];
    assert_eq!(v.segments.len(), 1);
    let sub = v.segment("sub").unwrap();
    assert_eq!(sub.rule, "stmt");
    assert_eq!(sub.variant.as_ref().unwrap(), "v");
    // The owners resolve back through the grammar.
    assert_eq!(sub.rule(&t).name.lexeme.as_ref().unwrap(), "stmt");
    assert_eq!(
        sub.variant(&t).unwrap().name.lexeme.as_ref().unwrap(),
        "v"
    );
    let extra = rule.segment("extra").unwrap();
    assert!(extra.variant.is_none());
    assert!(extra.variant(&t).is_none());
    assert_eq!(extra.rule(&t).name.lexeme.as_ref().unwrap(), "stmt");
    assert_eq!(v.rule(&t).name.lexeme.as_ref().unwrap(), "stmt");
}

#[test]
fn blank_top_level_lines_are_skipped() {
    let t = compiled(&["", "stmt:", "    v := WORD EOL", ""]);
    assert_eq!(t.rules.as_ref().unwrap().len(), 1);
}

#[test]
fn token_descriptions_answer_kind_and_lexeme() {
    let word = Token::word(1, (0, 3), "abc".to_string());
    assert!(word.eq(&PartialToken::Type(Type::Word)));
    assert!(!word.eq(&PartialToken::Type(Type::Number)));
    assert!(word.eq(&PartialToken::Lexeme("abc".to_string())));
    assert!(!word.eq(&PartialToken::Lexeme("abd".to_string())));
    assert!(word.eq(&PartialToken::Pair(Type::Word, "abc".to_string())));
    assert!(!word.eq(&PartialToken::Pair(Type::Number, "abc".to_string())));

    let toks = vec![
        Token::word(1, (0, 1), "a".to_string()),
        Token::symbol(1, (1, 2), ":".to_string()),
        Token::newline(1),
    ];
    let mut it = TokenIterator::new(&toks);
    assert!(it.check(&[
        PartialToken::Type(Type::Word),
        PartialToken::Pair(Type::Symbol, ":".to_string()),
        PartialToken::Type(Type::EOL),
    ]));
    assert_eq!(it.current, 0);
    assert!(it.match_with(&[PartialToken::Type(Type::Word)]));
    assert_eq!(it.current, 1);
    assert!(!it.match_with(&[PartialToken::Type(Type::Word)]));
    assert_eq!(it.current, 1);
    let next = it.next().unwrap();
    assert_eq!(next.lexeme.as_ref().unwrap(), ":");
    assert!(it.get(0).is_some());
    assert!(it.get(1).is_none());
    it.eat(5);
    assert_eq!(it.current, 2);
}

#[test]
fn case_tests_see_through_folding() {
    assert!("WORD".is_uppercase());
    assert!(!"Word".is_uppercase());
    assert!("word".is_lowercase());
    assert!(!"Word".is_lowercase());
    assert!("WORD".to_string().is_uppercase());
    assert!("==".is_uppercase());
    assert!("==".is_lowercase());
}

#[test]
fn outcomes_report_errors() {
    let ok: Outcome<u32> = Outcome::new(7, None);
    assert!(!ok.is_error());
    assert_eq!(ok.unwrap(), 7);
    let noted: Outcome<u32> = Outcome::new(
        7,
        Some(vec![Response::Note(None, "just a note".to_string())]),
    );
    assert!(!noted.is_error());
    let failed: Outcome<u32> = Outcome::new_pos(
        7,
        Some(vec![
            Response::Warning(None, "w".to_string()),
            Response::Error(None, "e".to_string()),
        ]),
    );
    assert!(failed.is_error());
}
