use std::sync::Arc;
use synth::{Node, Source, Template, TokenIterator, Type, Unit, MATCH_DEPTH};

fn strings(v: &[&str]) -> Vec<String> {
    let mut out: Vec<String> = Vec::new();
    for s in v {
        out.push((*s).to_string());
    }
    out
}

fn compiled(lines: &[&str]) -> Arc<Template> {
    let owned = strings(lines);
    let mut src = Source::new("template", None, &owned);
    let out = src.tokenize();
    assert!(!out.is_error());
    let mut t = Template::new(src);
    let out = t.parse();
    assert!(!out.is_error());
    Arc::new(t)
}

fn subject(lines: &[&str]) -> Source {
    let owned = strings(lines);
    let mut src = Source::new("unit", None, &owned);
    let out = src.tokenize();
    assert!(!out.is_error());
    src
}

fn capture<'a>(template: &'a Template, unit_src: &Source, node: &Node, name: &str) -> String {
    let rule = &template.rules.as_ref().unwrap()[node.rule];
    let variant = &rule.variants[node.variant];
    assert_eq!(variant.rule, rule.name.lexeme.as_ref().unwrap().as_str());
    for alias in &node.tokens {
        if alias.name.lexeme.as_ref().unwrap() == name {
            let tok = &unit_src.tokens.as_ref().unwrap()[alias.token];
            return tok.lexeme.clone().unwrap_or_default();
        }
    }
    panic!("no capture named {}", name);
}

#[test]
fn grammar_and_match_scenario() {
    // A rule `stmt:` with one variant capturing a Word as `x`, matched
    // against the subject `foo`: one node whose capture `x` resolves to
    // the word `foo`.
    let t = compiled(&["stmt:", "    v := x : WORD EOL"]);
    let src = subject(&["foo"]);
    let mut unit = Unit::new(&src, t.clone());
    let out = unit.parse();
    assert!(!out.is_error());
    let ast = out.value;
    assert_eq!(ast.nodes.len(), 1);
    let node = &ast.nodes[0];
    assert_eq!(node.rule, 0);
    assert_eq!(node.variant, 0);
    assert_eq!(node.tokens.len(), 1);
    assert_eq!(node.tokens[0].name.lexeme.as_ref().unwrap(), "x");
    assert_eq!(node.tokens[0].token, 0);
    assert_eq!(capture(&t, &src, node, "x"), "foo");
    ast.analyse();
}

#[test]
fn no_matching_rule_is_a_fatal_error() {
    // An empty grammar against any non-EOF subject: one fatal match error
    // at the first token.
    let t = compiled(&[]);
    let src = subject(&["anything 1 2"]);
    let mut unit = Unit::new(&src, t);
    let out = unit.parse();
    assert!(out.is_error());
    assert_eq!(out.value.nodes.len(), 0);
    let msgs = out.response.as_ref().unwrap();
    assert_eq!(msgs.len(), 1);
    match &msgs[0] {
        synth::Response::Error(pos, m) => {
            assert_eq!(m, "no path matches at token: anything");
            assert!(pos.is_some());
        },
        _ => panic!("expected an error entry"),
    }
}

#[test]
fn first_declared_variant_wins() {
    // Both variants match `foo EOL`; the matcher must take the first.
    let t = compiled(&["stmt:", "    first := a : WORD EOL", "    second := b : WORD EOL"]);
    let src = subject(&["foo"]);
    let mut unit = Unit::new(&src, t.clone());
    let out = unit.parse();
    assert!(!out.is_error());
    let node = &out.value.nodes[0];
    assert_eq!(node.variant, 0);
    let vname = t.rules.as_ref().unwrap()[node.rule].variants[node.variant]
        .name
        .lexeme
        .clone()
        .unwrap();
    assert_eq!(vname, "first");
}

#[test]
fn later_variants_are_tried_after_a_failure() {
    let t = compiled(&["stmt:", "    num := n : NUMBER EOL", "    word := w : WORD EOL"]);
    let src = subject(&["foo"]);
    let mut unit = Unit::new(&src, t.clone());
    let out = unit.parse();
    assert!(!out.is_error());
    let node = &out.value.nodes[0];
    assert_eq!(node.variant, 1);
    assert_eq!(capture(&t, &src, node, "w"), "foo");
}

#[test]
fn literal_pattern_elements_match_by_kind_and_lexeme() {
    let t = compiled(&["assign:", "    v := name : WORD = val : NUMBER EOL"]);
    let src = subject(&["answer = 42"]);
    let mut unit = Unit::new(&src, t.clone());
    let out = unit.parse();
    assert!(!out.is_error());
    let node = &out.value.nodes[0];
    assert_eq!(capture(&t, &src, node, "name"), "answer");
    assert_eq!(capture(&t, &src, node, "val"), "42");

    let bad = subject(&["answer + 42"]);
    let mut unit = Unit::new(&bad, t);
    let out = unit.parse();
    assert!(out.is_error());
}

#[test]
fn rule_references_recurse_and_build_child_nodes() {
    let t = compiled(&[
        "stmt:",
        "    v := lhs : WORD = e : expr EOL",
        "expr!",
        "    n := val : NUMBER",
    ]);
    let src = subject(&["x = 7"]);
    let mut unit = Unit::new(&src, t.clone());
    let out = unit.parse();
    assert!(!out.is_error());
    assert_eq!(out.value.nodes.len(), 1);
    let node = &out.value.nodes[0];
    assert_eq!(capture(&t, &src, node, "lhs"), "x");
    assert_eq!(node.children.len(), 1);
    let child = &node.children[0];
    assert_eq!(capture(&t, &src, child, "val"), "7");
}

#[test]
fn helper_rules_do_not_start_statements() {
    let t = compiled(&["expr!", "    n := val : NUMBER EOL"]);
    let src = subject(&["7"]);
    let mut unit = Unit::new(&src, t);
    let out = unit.parse();
    // The only rule is a helper, so nothing can match at the number.
    assert!(out.is_error());
    assert_eq!(out.value.nodes.len(), 0);
}

#[test]
fn the_first_declared_rule_wins_too() {
    // Both statement rules can match a bare word; the one declared first
    // is chosen.
    let t = compiled(&[
        "early:",
        "    v := w : WORD EOL",
        "late:",
        "    u := x : WORD EOL",
    ]);
    let src = subject(&["foo"]);
    let mut unit = Unit::new(&src, t);
    let out = unit.parse();
    assert!(!out.is_error());
    assert_eq!(out.value.nodes[0].rule, 0);
}

#[test]
fn several_statements_build_in_order() {
    let t = compiled(&["stmt:", "    v := w : WORD EOL"]);
    let src = subject(&["one", "two", "three"]);
    let mut unit = Unit::new(&src, t.clone());
    let out = unit.parse();
    assert!(!out.is_error());
    let nodes = &out.value.nodes;
    assert_eq!(nodes.len(), 3);
    assert_eq!(capture(&t, &src, &nodes[0], "w"), "one");
    assert_eq!(capture(&t, &src, &nodes[1], "w"), "two");
    assert_eq!(capture(&t, &src, &nodes[2], "w"), "three");
}

#[test]
fn an_escape_marker_is_skipped_without_consuming() {
    // The escape marker itself asks for nothing from the subject: the
    // element after it is matched as usual, and no backslash is expected.
    let t = compiled(&["stmt:", "    v := \\ x w : WORD EOL"]);
    let src = subject(&["x foo"]);
    let mut unit = Unit::new(&src, t.clone());
    let out = unit.parse();
    assert!(!out.is_error());
    assert_eq!(capture(&t, &src, &out.value.nodes[0], "w"), "foo");

    // A backslash in the subject itself does not fit: the marker stands
    // for no token.
    let bad = subject(&["\\ x foo"]);
    let mut unit = Unit::new(&bad, t);
    let out = unit.parse();
    assert!(out.is_error());
}

#[test]
fn check_rule_restores_the_cursor_on_failure() {
    let t = compiled(&["stmt:", "    v := n : NUMBER EOL"]);
    let src = subject(&["word"]);
    let toks = src.tokens.as_ref().unwrap();
    let unit = Unit::new(&src, t);
    let mut it = TokenIterator::new(toks);
    let r = unit.check_rule(&mut it, 0, MATCH_DEPTH);
    assert!(r.is_none());
    assert_eq!(it.current, 0);
}

#[test]
fn check_variant_yields_the_consumed_path() {
    let t = compiled(&["stmt:", "    v := n : NUMBER EOL"]);
    let src = subject(&["41"]);
    let toks = src.tokens.as_ref().unwrap();
    let unit = Unit::new(&src, t);
    let mut it = TokenIterator::new(toks);
    let p = unit.check_variant(&mut it, 0, 0, MATCH_DEPTH).unwrap();
    assert_eq!(p.rule, 0);
    assert_eq!(p.variant, 0);
    assert_eq!(p.children.len(), 0);
    // The pattern consumed the number and the end of line.
    assert_eq!(it.current, 2);
}

#[test]
fn a_left_recursive_rule_fails_instead_of_hanging() {
    // A rule whose first element re-enters itself without consuming input
    // runs out of following depth and the parse reports no match.
    let t = compiled(&["loopy:", "    v := e : loopy EOL"]);
    let src = subject(&["x"]);
    let mut unit = Unit::new(&src, t);
    let out = unit.parse();
    assert!(out.is_error());
}

#[test]
fn subject_tokens_flow_through_shared_directives() {
    // The unit inherits the template source's directives, as the pipeline
    // wires them through.
    let owned = strings(&["#comment //", "stmt:", "    v := w : WORD EOL"]);
    let mut tsrc = Source::new("template", Some("#"), &owned);
    let out = tsrc.tokenize();
    assert!(!out.is_error());
    let mut t = Template::new(tsrc);
    let out = t.parse();
    assert!(!out.is_error());
    let t = Arc::new(t);

    let ulines = strings(&["foo // trailing note"]);
    let mut usrc = Source::new("unit", None, &ulines);
    usrc.directives = t.source.directives.clone();
    let out = usrc.tokenize();
    assert!(!out.is_error());
    let mut unit = Unit::new(&usrc, t.clone());
    let out = unit.parse();
    assert!(!out.is_error());
    assert_eq!(capture(&t, &usrc, &out.value.nodes[0], "w"), "foo");
}
