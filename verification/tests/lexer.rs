use synth::{Source, Type};

fn strings(v: &[&str]) -> Vec<String> {
    let mut out: Vec<String> = Vec::new();
    for s in v {
        out.push((*s).to_string());
    }
    out
}

fn kinds_and_lexemes(src: &Source) -> Vec<(Type, Option<String>)> {
    let mut out = Vec::new();
    for t in src.tokens.as_ref().unwrap() {
        out.push((t.token_type, t.lexeme.clone()));
    }
    out
}

#[test]
fn directives_are_read_off_control_lines() {
    let lines = strings(&["#comment //", "#string \"", "x"]);
    let src = Source::new("unit", Some("#"), &lines);
    assert_eq!(src.directives.len(), 2);
    assert_eq!(src.directives[0].0, "comment");
    assert_eq!(src.directives[0].1, "//");
    assert_eq!(src.directives[1].0, "string");
    assert_eq!(src.directives[1].1, "\"");
    assert_eq!(src.get_directive("comment").unwrap(), "//");
    assert_eq!(src.get_directive("string").unwrap(), "\"");
    assert!(src.get_directive("other").is_none());
    // The control lines are blanked out, the rest stay.
    assert_eq!(src.lines[0], "");
    assert_eq!(src.lines[1], "");
    assert_eq!(src.lines[2], "x");
}

#[test]
fn line_comment_scenario() {
    // Directive `comment //`, input `x = 1 // note`: the comment text
    // produces no tokens.
    let lines = strings(&["#comment //", "x = 1 // note"]);
    let mut src = Source::new("unit", Some("#"), &lines);
    let out = src.tokenize();
    assert!(!out.is_error());
    let toks = kinds_and_lexemes(&src);
    assert_eq!(toks.len(), 5);
    assert_eq!(toks[0], (Type::Word, Some("x".to_string())));
    assert_eq!(toks[1], (Type::Symbol, Some("=".to_string())));
    assert_eq!(toks[2], (Type::Number, Some("1".to_string())));
    assert_eq!(toks[3], (Type::EOL, None));
    assert_eq!(toks[4], (Type::EOF, None));
    let ts = src.tokens.as_ref().unwrap();
    assert_eq!(ts[0].slice, (0, 1));
    assert_eq!(ts[1].slice, (2, 3));
    assert_eq!(ts[2].slice, (4, 5));
    assert_eq!(ts[0].line, 2);
}

#[test]
fn block_comment_scenario() {
    // Directive `comment /* */`, input `/* a */x`: only the word after the
    // block comment is tokenized.
    let lines = strings(&["#comment /* */", "/* a */x"]);
    let mut src = Source::new("unit", Some("#"), &lines);
    let out = src.tokenize();
    assert!(!out.is_error());
    let toks = kinds_and_lexemes(&src);
    assert_eq!(toks.len(), 3);
    assert_eq!(toks[0], (Type::Word, Some("x".to_string())));
    assert_eq!(toks[1], (Type::EOL, None));
    assert_eq!(toks[2], (Type::EOF, None));
}

#[test]
fn unexpected_block_terminator_is_an_error() {
    // Three delimiters: a block pair and a line marker; a stray terminator
    // before any opener is an error.
    let lines = strings(&["#comment /* */ //", "*/"]);
    let mut src = Source::new("unit", Some("#"), &lines);
    let out = src.tokenize();
    assert!(out.is_error());
    let msgs = out.response.as_ref().unwrap();
    assert_eq!(msgs.len(), 1);
    match &msgs[0] {
        synth::Response::Error(_, m) => assert_eq!(m, "unexpected block comment terminator"),
        _ => panic!("expected an error entry"),
    }
}

#[test]
fn string_scenario() {
    // Directive `string "`, input `"hi"`: one String token whose lexeme
    // excludes the quotes.
    let lines = strings(&["#string \"", "\"hi\""]);
    let mut src = Source::new("unit", Some("#"), &lines);
    let out = src.tokenize();
    assert!(!out.is_error());
    let toks = kinds_and_lexemes(&src);
    assert_eq!(toks.len(), 3);
    assert_eq!(toks[0], (Type::String, Some("hi".to_string())));
    assert_eq!(toks[1], (Type::EOL, None));
    assert_eq!(toks[2], (Type::EOF, None));
    assert_eq!(src.tokens.as_ref().unwrap()[0].slice, (1, 3));
}

#[test]
fn escaped_quote_stays_inside_the_string() {
    let lines = strings(&["#string \"", "\"a\\\"b\""]);
    let mut src = Source::new("unit", Some("#"), &lines);
    let out = src.tokenize();
    assert!(!out.is_error());
    let toks = kinds_and_lexemes(&src);
    assert_eq!(toks[0], (Type::String, Some("a\\\"b".to_string())));
}

#[test]
fn indentation_opens_and_closes_levels() {
    let lines = strings(&["a", "  b", "    c", "d"]);
    let mut src = Source::new("unit", None, &lines);
    let out = src.tokenize();
    assert!(!out.is_error());
    let toks = kinds_and_lexemes(&src);
    let expected = vec![
        (Type::Word, Some("a".to_string())),
        (Type::EOL, None),
        (Type::Indent, None),
        (Type::Word, Some("b".to_string())),
        (Type::EOL, None),
        (Type::Indent, None),
        (Type::Word, Some("c".to_string())),
        (Type::EOL, None),
        (Type::Dedent, None),
        (Type::Dedent, None),
        (Type::Word, Some("d".to_string())),
        (Type::EOL, None),
        (Type::EOF, None),
    ];
    assert_eq!(toks, expected);
}

#[test]
fn indentation_depth_never_negative_and_ends_closed() {
    let lines = strings(&["a", "   b", "      c", " d", "e"]);
    let mut src = Source::new("unit", None, &lines);
    src.tokenize();
    let mut depth: i64 = 0;
    for t in src.tokens.as_ref().unwrap() {
        match t.token_type {
            Type::Indent => depth += 1,
            Type::Dedent => depth -= 1,
            _ => {}
        }
        assert!(depth >= 0);
    }
    assert_eq!(depth, 0);
}

#[test]
fn tokenizing_twice_gives_identical_sequences() {
    let lines = strings(&["#comment //", "#string '", "a 'str' 12 // done", "  in"]);
    let mut one = Source::new("unit", Some("#"), &lines);
    let mut two = Source::new("unit", Some("#"), &lines);
    one.tokenize();
    two.tokenize();
    let a = kinds_and_lexemes(&one);
    let b = kinds_and_lexemes(&two);
    assert_eq!(a, b);
    let ta = one.tokens.as_ref().unwrap();
    let tb = two.tokens.as_ref().unwrap();
    assert_eq!(ta.len(), tb.len());
    for i in 0..ta.len() {
        assert_eq!(ta[i].line, tb[i].line);
        assert_eq!(ta[i].slice, tb[i].slice);
    }
}

#[test]
fn unterminated_block_comment_is_an_error() {
    let lines = strings(&["#comment /* */", "/* never closed"]);
    let mut src = Source::new("unit", Some("#"), &lines);
    let out = src.tokenize();
    assert!(out.is_error());
    match &out.response.as_ref().unwrap()[0] {
        synth::Response::Error(_, m) => assert_eq!(m, "unterminated block comment"),
        _ => panic!("expected an error entry"),
    }
}

#[test]
fn too_many_comment_delimiters_is_an_error() {
    let lines = strings(&["#comment a b c d", "x"]);
    let mut src = Source::new("unit", Some("#"), &lines);
    let out = src.tokenize();
    assert!(out.is_error());
    match &out.response.as_ref().unwrap()[0] {
        synth::Response::Error(_, m) => assert_eq!(m, "too many comment delimiters"),
        _ => panic!("expected an error entry"),
    }
}

#[test]
fn indentation_is_suppressed_inside_block_comments() {
    // A dedent that happens inside an open block comment does not pop the
    // stack; the level closes only at the end of input.
    let lines = strings(&["#comment /* */", "a", "    b /*", "x", "  y*/z"]);
    let mut src = Source::new("unit", Some("#"), &lines);
    let out = src.tokenize();
    assert!(!out.is_error());
    let toks = kinds_and_lexemes(&src);
    let expected = vec![
        (Type::Word, Some("a".to_string())),
        (Type::EOL, None),
        (Type::Indent, None),
        (Type::Word, Some("b".to_string())),
        // the block comment swallows the rest of this line, all of the
        // next, and the start of the one after; no Indent or Dedent
        // bookkeeping happens meanwhile
        (Type::Word, Some("z".to_string())),
        (Type::EOL, None),
        (Type::Dedent, None),
        (Type::EOF, None),
    ];
    assert_eq!(toks, expected);
}

#[test]
fn numbers_words_and_symbols_are_classified() {
    let lines = strings(&["abc1 23 +"]);
    let mut src = Source::new("unit", None, &lines);
    src.tokenize();
    let toks = kinds_and_lexemes(&src);
    assert_eq!(toks[0], (Type::Word, Some("abc1".to_string())));
    assert_eq!(toks[1], (Type::Number, Some("23".to_string())));
    assert_eq!(toks[2], (Type::Symbol, Some("+".to_string())));
    assert_eq!(toks[3], (Type::EOL, None));
    assert_eq!(toks[4], (Type::EOF, None));
}

#[test]
fn an_empty_source_yields_only_the_end_of_file() {
    let lines: Vec<String> = Vec::new();
    let mut src = Source::new("unit", None, &lines);
    let out = src.tokenize();
    assert!(!out.is_error());
    let toks = kinds_and_lexemes(&src);
    assert_eq!(toks, vec![(Type::EOF, None)]);
}

#[test]
fn dedenting_between_levels_pops_without_reopening() {
    // Indentation 3 sits between the open levels 2 and 4: the deeper level
    // closes and no new level opens.
    let lines = strings(&["a", "  b", "    c", "   d"]);
    let mut src = Source::new("unit", None, &lines);
    let out = src.tokenize();
    assert!(!out.is_error());
    let toks = kinds_and_lexemes(&src);
    let expected = vec![
        (Type::Word, Some("a".to_string())),
        (Type::EOL, None),
        (Type::Indent, None),
        (Type::Word, Some("b".to_string())),
        (Type::EOL, None),
        (Type::Indent, None),
        (Type::Word, Some("c".to_string())),
        (Type::EOL, None),
        (Type::Dedent, None),
        (Type::Word, Some("d".to_string())),
        (Type::EOL, None),
        (Type::Dedent, None),
        (Type::EOF, None),
    ];
    assert_eq!(toks, expected);
}

#[test]
fn type_names_round_trip() {
    assert_eq!(Type::from_str("word"), Some(Type::Word));
    assert_eq!(Type::from_str("WORD"), Some(Type::Word));
    assert_eq!(Type::from_str("Number"), Some(Type::Number));
    assert_eq!(Type::from_str("STRING"), Some(Type::String));
    assert_eq!(Type::from_str("SYMBOL"), Some(Type::Symbol));
    assert_eq!(Type::from_str("INDENT"), Some(Type::Indent));
    assert_eq!(Type::from_str("DEDENT"), Some(Type::Dedent));
    assert_eq!(Type::from_str("EOL"), Some(Type::EOL));
    assert_eq!(Type::from_str("EOF"), Some(Type::EOF));
    assert_eq!(Type::from_str("nonsense"), None);
    assert_eq!(Type::Word.to_str(), "Word");
    assert_eq!(Type::EOF.to_str(), "EOF");
}
