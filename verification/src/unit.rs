use vstd::prelude::*;
use vstd::string::StringExecFns;
use std::sync::Arc;
use crate::error::{Outcome, Response, SpecPartial, SpecResponse};
use crate::extras::{spec_is_uppercase, str_is_uppercase, upper_of};
use crate::rule::{lexeme_of, lexeme_str, Alias, SpecAlias, SpecRule};
use crate::template::{spec_find_rule_lex, spec_find_rule_lex_from, Template};
use crate::token::{spec_type_from_str, SpecToken, Token, TokenIterator, Type};
use crate::tokenizer::Source;

verus! {

/// How far the matcher will follow rule references before giving a branch
/// up: a guard against unbounded recursion on left-recursive grammars.
pub const MATCH_DEPTH: u64 = 255;

// ---------------------------------------------------------------------------
// The match tree and the syntax tree.
// ---------------------------------------------------------------------------

/// The mathematical image of a `Path`.
pub ghost struct SpecPath {
    pub rule: int,
    pub variant: int,
    pub children: Seq<SpecPath>,
}

/// A transient match-tree node: the matched variant, by its rule's and its
/// own position in the grammar, and one child path per rule reference the
/// pattern took.
#[derive(Debug)]
pub struct Path {
    pub rule: usize,
    pub variant: usize,
    pub children: Vec<Path>,
}

impl View for Path {
    type V = SpecPath;

    open spec fn view(&self) -> SpecPath
        decreases self,
    {
        SpecPath {
            rule: self.rule as int,
            variant: self.variant as int,
            children: Seq::new(
                self.children@.len(),
                |i: int|
                    if 0 <= i < self.children@.len() {
                        self.children@[i]@
                    } else {
                        SpecPath { rule: 0, variant: 0, children: Seq::empty() }
                    },
            ),
        }
    }
}

impl DeepView for Path {
    type V = SpecPath;

    open spec fn deep_view(&self) -> SpecPath {
        self.view()
    }
}

/// The mathematical image of a `Node`.
pub ghost struct SpecNode {
    pub rule: int,
    pub variant: int,
    pub tokens: Seq<SpecAlias>,
    pub children: Seq<SpecNode>,
}

/// A syntax-tree node: the matched variant, by position in the grammar, the
/// captured aliases resolved to token positions, and the child nodes built
/// from the variant's rule references, in pattern order.
#[derive(Debug)]
pub struct Node {
    pub rule: usize,
    pub variant: usize,
    pub tokens: Vec<Alias>,
    pub children: Vec<Node>,
}

impl View for Node {
    type V = SpecNode;

    open spec fn view(&self) -> SpecNode
        decreases self,
    {
        SpecNode {
            rule: self.rule as int,
            variant: self.variant as int,
            tokens: self.tokens.deep_view(),
            children: Seq::new(
                self.children@.len(),
                |i: int|
                    if 0 <= i < self.children@.len() {
                        self.children@[i]@
                    } else {
                        SpecNode {
                            rule: 0,
                            variant: 0,
                            tokens: Seq::empty(),
                            children: Seq::empty(),
                        }
                    },
            ),
        }
    }
}

impl DeepView for Node {
    type V = SpecNode;

    open spec fn deep_view(&self) -> SpecNode {
        self.view()
    }
}

/// A node cloned wholesale, child by child; the views agree.
fn clone_node(n: &Node) -> (r: Node)
    ensures
        r@ == n@,
    decreases n@,
{
    let count = n.children.len();
    let mut children: Vec<Node> = Vec::new();
    let mut i: usize = 0;
    while i < count
        invariant
            count == n.children@.len(),
            0 <= i <= count,
            children.deep_view() =~= n@.children.subrange(0, i as int),
        decreases count - i,
    {
        proof {
            assert(n@.children[i as int] == n.children@[i as int]@);
            assert(decreases_to!(n@ => n@.children[i as int]));
        }
        let ghost old_c = children.deep_view();
        children.push(clone_node(&n.children[i]));
        proof {
            assert(children.deep_view() =~= old_c.push(children@[children@.len() - 1]@));
            assert(n@.children.subrange(0, i + 1) =~= n@.children.subrange(0, i as int).push(
                n@.children[i as int],
            ));
        }
        i = i + 1;
    }
    let r = Node {
        rule: n.rule,
        variant: n.variant,
        tokens: crate::rule::clone_aliases(&n.tokens),
        children,
    };
    proof {
        assert(n@.children.subrange(0, count as int) =~= n@.children);
        assert(r@.children =~= r.children.deep_view());
        assert(r@.children =~= n@.children);
    }
    r
}

impl Clone for Node {
    fn clone(&self) -> (r: Node)
        ensures
            r@ == self@,
    {
        clone_node(self)
    }
}


// ---------------------------------------------------------------------------
// The matcher as a mathematical function.
//
// `check_rule`, `check_variant` and `parse` are proved to return exactly
// what these functions describe: ordered, backtracking first-match search
// over the grammar's rules and variants.
// ---------------------------------------------------------------------------

/// Whether a pattern element is the escape marker.
pub open spec fn is_escape(t: SpecToken) -> bool {
    t.lexeme == Option::Some("\\"@)
}

/// Whether a pattern element is written fully in upper case, denoting a
/// token kind rather than a literal or a rule reference.
pub open spec fn pat_uppercase(t: SpecToken) -> bool {
    spec_is_uppercase(lexeme_of(t))
}

/// The token kind an upper-case pattern element denotes.
pub open spec fn pat_kind(t: SpecToken) -> Option<Type> {
    spec_type_from_str(upper_of(lexeme_of(t)))
}

/// How a pattern element not at a capture position matches a subject
/// token: an upper-case word by kind, anything else by kind and lexeme.
pub open spec fn literal_matches(sub: SpecToken, pat: SpecToken) -> bool {
    if pat.token_type is Word && pat_uppercase(pat) {
        match pat_kind(pat) {
            Option::Some(k) => sub.token_type == k,
            Option::None => false,
        }
    } else {
        sub.token_type == pat.token_type && sub.lexeme == pat.lexeme
    }
}

/// The walk of one variant's pattern from element `idx` on, with `alias`
/// capture points already passed and `acc` the child paths gathered so
/// far: either the children and the position after the consumed tokens,
/// or nothing, the attempt having failed.
pub open spec fn spec_walk(
    rs: Seq<SpecRule>,
    ts: Seq<SpecToken>,
    pos: int,
    r: int,
    v: int,
    idx: int,
    alias: int,
    acc: Seq<SpecPath>,
    fuel: nat,
) -> Option<(Seq<SpecPath>, int)>
    recommends
        0 <= r < rs.len(),
        0 <= v < rs[r].variants.len(),
    decreases fuel, 0int, rs[r].variants.len() - v, rs[r].variants[v].tokens.len() - idx,
    when 0 <= r < rs.len() && 0 <= v < rs[r].variants.len() && 0 <= idx
{
    let pat = rs[r].variants[v].tokens;
    let aliases = rs[r].variants[v].aliases;
    if idx >= pat.len() {
        Option::Some((acc, pos))
    } else {
        let j = if is_escape(pat[idx]) {
            idx + 1
        } else {
            idx
        };
        if j >= pat.len() {
            Option::Some((acc, pos))
        } else if alias < aliases.len() && j == aliases[alias].token {
            if pat_uppercase(pat[j]) {
                match pat_kind(pat[j]) {
                    Option::Some(k) => if 0 <= pos < ts.len() && ts[pos].token_type == k {
                        spec_walk(rs, ts, pos + 1, r, v, j + 1, alias + 1, acc, fuel)
                    } else {
                        Option::None
                    },
                    Option::None => Option::None,
                }
            } else {
                if fuel == 0 {
                    Option::None
                } else {
                    match spec_find_rule_lex(rs, pat[j].lexeme) {
                        Option::Some(r2) => match spec_check_rule(
                            rs,
                            ts,
                            pos,
                            r2,
                            (fuel - 1) as nat,
                        ) {
                            Option::Some((child, np)) => spec_walk(
                                rs,
                                ts,
                                np,
                                r,
                                v,
                                j + 1,
                                alias + 1,
                                acc.push(child),
                                fuel,
                            ),
                            Option::None => Option::None,
                        },
                        Option::None => Option::None,
                    }
                }
            }
        } else {
            if 0 <= pos < ts.len() && literal_matches(ts[pos], pat[j]) {
                spec_walk(rs, ts, pos + 1, r, v, j + 1, alias, acc, fuel)
            } else {
                Option::None
            }
        }
    }
}

/// One variant's whole attempt: a fresh walk of its pattern; on success
/// the variant's path and the position after it.
pub open spec fn spec_check_variant(
    rs: Seq<SpecRule>,
    ts: Seq<SpecToken>,
    pos: int,
    r: int,
    v: int,
    fuel: nat,
) -> Option<(SpecPath, int)>
    recommends
        0 <= r < rs.len(),
        0 <= v < rs[r].variants.len(),
{
    match spec_walk(rs, ts, pos, r, v, 0, 0, Seq::empty(), fuel) {
        Option::Some((children, np)) => Option::Some(
            (SpecPath { rule: r, variant: v, children }, np),
        ),
        Option::None => Option::None,
    }
}

/// The rule's variants tried in declaration order from `v` on; the first
/// that matches wins.
pub open spec fn spec_check_variants(
    rs: Seq<SpecRule>,
    ts: Seq<SpecToken>,
    pos: int,
    r: int,
    v: int,
    fuel: nat,
) -> Option<(SpecPath, int)>
    recommends
        0 <= r < rs.len(),
    decreases fuel, 1int, rs[r].variants.len() - v, 0int,
    when 0 <= r < rs.len() && 0 <= v
{
    if v >= rs[r].variants.len() {
        Option::None
    } else {
        match spec_walk(rs, ts, pos, r, v, 0, 0, Seq::empty(), fuel) {
            Option::Some((children, np)) => Option::Some(
                (SpecPath { rule: r, variant: v, children }, np),
            ),
            Option::None => spec_check_variants(rs, ts, pos, r, v + 1, fuel),
        }
    }
}

/// One rule's whole attempt: its variants in order, the first match wins;
/// a rule out of fuel matches nothing.
pub open spec fn spec_check_rule(
    rs: Seq<SpecRule>,
    ts: Seq<SpecToken>,
    pos: int,
    r: int,
    fuel: nat,
) -> Option<(SpecPath, int)>
    decreases fuel, 2int, 0int, 0int,
{
    if fuel == 0 || r < 0 || r >= rs.len() {
        Option::None
    } else {
        spec_check_variants(rs, ts, pos, r, 0, fuel)
    }
}

/// The first rule from `ri` on that may start a statement and matches at
/// `pos`.
pub open spec fn spec_try_rules(
    rs: Seq<SpecRule>,
    ts: Seq<SpecToken>,
    pos: int,
    ri: int,
    fuel: nat,
) -> Option<(SpecPath, int)>
    decreases rs.len() - ri,
    when 0 <= ri
{
    if ri >= rs.len() {
        Option::None
    } else if rs[ri].is_matching {
        match spec_check_rule(rs, ts, pos, ri, fuel) {
            Option::Some(x) => Option::Some(x),
            Option::None => spec_try_rules(rs, ts, pos, ri + 1, fuel),
        }
    } else {
        spec_try_rules(rs, ts, pos, ri + 1, fuel)
    }
}

// ---------------------------------------------------------------------------
// The tree builder as a mathematical function: a second, failure-free walk
// of a matched path that records captures instead of verifying tokens.
// ---------------------------------------------------------------------------

/// Where the cursor stands after one step: one further, unless it already
/// stands at the end.
pub open spec fn cursor_advance(pos: int, tslen: int) -> int {
    if 0 <= pos < tslen {
        pos + 1
    } else {
        pos
    }
}

/// The builder's walk of one matched variant's pattern: at an upper-case
/// capture position the current cursor index is recorded under the
/// capture's name; at a rule-reference capture position the next child
/// path is built; everywhere else the cursor moves on by one.
pub open spec fn spec_build_walk(
    rs: Seq<SpecRule>,
    tslen: int,
    pos: int,
    p: SpecPath,
    idx: int,
    alias: int,
    cc: int,
    toks: Seq<SpecAlias>,
    kids: Seq<SpecNode>,
) -> (Seq<SpecAlias>, Seq<SpecNode>, int)
    recommends
        0 <= p.rule < rs.len(),
        0 <= p.variant < rs[p.rule].variants.len(),
    decreases p, 0int, rs[p.rule].variants[p.variant].tokens.len() - idx,
    when 0 <= p.rule < rs.len() && 0 <= p.variant < rs[p.rule].variants.len() && 0 <= idx && 0
        <= cc
{
    let pat = rs[p.rule].variants[p.variant].tokens;
    let aliases = rs[p.rule].variants[p.variant].aliases;
    if idx >= pat.len() {
        (toks, kids, pos)
    } else {
        let j = if is_escape(pat[idx]) {
            idx + 1
        } else {
            idx
        };
        if j >= pat.len() {
            (toks, kids, pos)
        } else if alias < aliases.len() && j == aliases[alias].token {
            if pat_uppercase(pat[j]) {
                spec_build_walk(
                    rs,
                    tslen,
                    cursor_advance(pos, tslen),
                    p,
                    j + 1,
                    alias + 1,
                    cc,
                    toks.push(SpecAlias { name: aliases[alias].name, token: pos }),
                    kids,
                )
            } else {
                if cc >= p.children.len() {
                    (toks, kids, pos)
                } else {
                    let built = spec_build(rs, tslen, pos, p.children[cc]);
                    spec_build_walk(
                        rs,
                        tslen,
                        built.1,
                        p,
                        j + 1,
                        alias + 1,
                        cc + 1,
                        toks,
                        kids.push(built.0),
                    )
                }
            }
        } else {
            spec_build_walk(rs, tslen, cursor_advance(pos, tslen), p, j + 1, alias, cc, toks, kids)
        }
    }
}

/// The node one matched path builds, and the cursor position after it.
pub open spec fn spec_build(rs: Seq<SpecRule>, tslen: int, pos: int, p: SpecPath) -> (
    SpecNode,
    int,
)
    decreases p, 1int, 0int,
{
    if 0 <= p.rule < rs.len() && 0 <= p.variant < rs[p.rule].variants.len() {
        let walked = spec_build_walk(rs, tslen, pos, p, 0, 0, 0, Seq::empty(), Seq::empty());
        (
            SpecNode { rule: p.rule, variant: p.variant, tokens: walked.0, children: walked.1 },
            walked.2,
        )
    } else {
        (
            SpecNode { rule: p.rule, variant: p.variant, tokens: Seq::empty(), children: Seq::empty() },
            pos,
        )
    }
}

/// The nodes all matched paths build, in order, threading the cursor.
pub open spec fn spec_build_all(
    rs: Seq<SpecRule>,
    tslen: int,
    pos: int,
    paths: Seq<SpecPath>,
    k: int,
) -> Seq<SpecNode>
    decreases paths.len() - k,
    when 0 <= k
{
    if k >= paths.len() {
        Seq::empty()
    } else {
        let built = spec_build(rs, tslen, pos, paths[k]);
        seq![built.0] + spec_build_all(rs, tslen, built.1, paths, k + 1)
    }
}

// ---------------------------------------------------------------------------
// Bounds of the matcher: a successful attempt never moves the cursor
// backwards nor past the end of the token buffer.
// ---------------------------------------------------------------------------

pub proof fn lemma_walk_bounds(
    rs: Seq<SpecRule>,
    ts: Seq<SpecToken>,
    pos: int,
    r: int,
    v: int,
    idx: int,
    alias: int,
    acc: Seq<SpecPath>,
    fuel: nat,
)
    requires
        0 <= pos <= ts.len(),
        0 <= r < rs.len(),
        0 <= v < rs[r].variants.len(),
        0 <= idx,
    ensures
        spec_walk(rs, ts, pos, r, v, idx, alias, acc, fuel) matches Option::Some(w) ==> pos <= w.1
            <= ts.len(),
    decreases fuel, 0int, rs[r].variants.len() - v, rs[r].variants[v].tokens.len() - idx,
{
    let pat = rs[r].variants[v].tokens;
    let aliases = rs[r].variants[v].aliases;
    if idx >= pat.len() {
    } else {
        let j = if is_escape(pat[idx]) {
            idx + 1
        } else {
            idx
        };
        if j >= pat.len() {
        } else if alias < aliases.len() && j == aliases[alias].token {
            if pat_uppercase(pat[j]) {
                match pat_kind(pat[j]) {
                    Option::Some(k) => {
                        if 0 <= pos < ts.len() && ts[pos].token_type == k {
                            lemma_walk_bounds(rs, ts, pos + 1, r, v, j + 1, alias + 1, acc, fuel);
                        }
                    },
                    Option::None => {},
                }
            } else {
                if fuel > 0 {
                    match spec_find_rule_lex(rs, pat[j].lexeme) {
                        Option::Some(r2) => {
                            lemma_check_rule_bounds(rs, ts, pos, r2, (fuel - 1) as nat);
                            match spec_check_rule(rs, ts, pos, r2, (fuel - 1) as nat) {
                                Option::Some(c) => {
                                    lemma_walk_bounds(
                                        rs,
                                        ts,
                                        c.1,
                                        r,
                                        v,
                                        j + 1,
                                        alias + 1,
                                        acc.push(c.0),
                                        fuel,
                                    );
                                },
                                Option::None => {},
                            }
                        },
                        Option::None => {},
                    }
                }
            }
        } else {
            if 0 <= pos < ts.len() && literal_matches(ts[pos], pat[j]) {
                lemma_walk_bounds(rs, ts, pos + 1, r, v, j + 1, alias, acc, fuel);
            }
        }
    }
}

pub proof fn lemma_check_variants_bounds(
    rs: Seq<SpecRule>,
    ts: Seq<SpecToken>,
    pos: int,
    r: int,
    v: int,
    fuel: nat,
)
    requires
        0 <= pos <= ts.len(),
        0 <= r < rs.len(),
        0 <= v,
    ensures
        spec_check_variants(rs, ts, pos, r, v, fuel) matches Option::Some(w) ==> pos <= w.1
            <= ts.len(),
    decreases fuel, 1int, rs[r].variants.len() - v, 0int,
{
    if v >= rs[r].variants.len() {
    } else {
        lemma_walk_bounds(rs, ts, pos, r, v, 0, 0, Seq::empty(), fuel);
        match spec_walk(rs, ts, pos, r, v, 0, 0, Seq::empty(), fuel) {
            Option::Some(w) => {},
            Option::None => {
                lemma_check_variants_bounds(rs, ts, pos, r, v + 1, fuel);
            },
        }
    }
}

pub proof fn lemma_check_rule_bounds(
    rs: Seq<SpecRule>,
    ts: Seq<SpecToken>,
    pos: int,
    r: int,
    fuel: nat,
)
    requires
        0 <= pos <= ts.len(),
    ensures
        spec_check_rule(rs, ts, pos, r, fuel) matches Option::Some(w) ==> pos <= w.1 <= ts.len(),
    decreases fuel, 2int, 0int, 0int,
{
    if fuel == 0 || r < 0 || r >= rs.len() {
    } else {
        lemma_check_variants_bounds(rs, ts, pos, r, 0, fuel);
    }
}

pub proof fn lemma_try_rules_bounds(
    rs: Seq<SpecRule>,
    ts: Seq<SpecToken>,
    pos: int,
    ri: int,
    fuel: nat,
)
    requires
        0 <= pos <= ts.len(),
        0 <= ri,
    ensures
        spec_try_rules(rs, ts, pos, ri, fuel) matches Option::Some(w) ==> pos <= w.1 <= ts.len(),
    decreases rs.len() - ri,
{
    if ri >= rs.len() {
    } else {
        lemma_check_rule_bounds(rs, ts, pos, ri, fuel);
        if rs[ri].is_matching {
            match spec_check_rule(rs, ts, pos, ri, fuel) {
                Option::Some(w) => {},
                Option::None => {
                    lemma_try_rules_bounds(rs, ts, pos, ri + 1, fuel);
                },
            }
        } else {
            lemma_try_rules_bounds(rs, ts, pos, ri + 1, fuel);
        }
    }
}

/// The top of the matcher: while tokens remain, the first statement rule
/// that matches at the cursor contributes its path; a match that consumes
/// nothing ends the parse, as does the end of input; anything unmatched
/// but the end-of-file token is a fatal error naming the offending token.
pub open spec fn spec_parse_loop(
    rs: Seq<SpecRule>,
    ts: Seq<SpecToken>,
    pos: int,
    paths: Seq<SpecPath>,
    resp: Seq<SpecResponse>,
    fuel: nat,
) -> (Seq<SpecPath>, Seq<SpecResponse>)
    decreases ts.len() - pos,
    when 0 <= pos <= ts.len()
    via spec_parse_loop_decreases
{
    if pos >= ts.len() {
        (paths, resp)
    } else {
        match spec_try_rules(rs, ts, pos, 0, fuel) {
            Option::Some(w) => if w.1 > pos {
                spec_parse_loop(rs, ts, w.1, paths.push(w.0), resp, fuel)
            } else {
                (paths.push(w.0), resp)
            },
            Option::None => if ts[pos].token_type is EOF {
                (paths, resp)
            } else {
                (
                    paths,
                    resp.push(
                        SpecResponse::Error(
                            Option::Some(SpecPartial::Full(ts[pos])),
                            "no path matches at token: "@ + lexeme_of(ts[pos]),
                        ),
                    ),
                )
            },
        }
    }
}

#[via_fn]
proof fn spec_parse_loop_decreases(
    rs: Seq<SpecRule>,
    ts: Seq<SpecToken>,
    pos: int,
    paths: Seq<SpecPath>,
    resp: Seq<SpecResponse>,
    fuel: nat,
) {
    if 0 <= pos < ts.len() {
        lemma_try_rules_bounds(rs, ts, pos, 0, fuel);
    }
}

// ---------------------------------------------------------------------------
// Executable matching.
// ---------------------------------------------------------------------------

/// Whether a token's lexeme is exactly the escape marker.
fn is_escape_exec(t: &Token) -> (r: bool)
    ensures
        r == is_escape(t@),
{
    match &t.lexeme {
        Option::Some(s) => crate::extras::str_eq(s.as_str(), "\\"),
        Option::None => false,
    }
}

/// Whether a subject token answers a pattern element standing outside any
/// capture position.
fn literal_match_exec(sub: &Token, pat: &Token) -> (r: bool)
    ensures
        r == literal_matches(sub@, pat@),
{
    let lx = lexeme_str(pat);
    if pat.token_type == Type::Word && str_is_uppercase(lx) {
        match Type::from_str(lx) {
            Option::Some(k) => sub.token_type == k,
            Option::None => false,
        }
    } else {
        let lex_eq = match (&sub.lexeme, &pat.lexeme) {
            (Option::Some(a), Option::Some(b)) => crate::extras::str_eq(a.as_str(), b.as_str()),
            (Option::None, Option::None) => true,
            _ => false,
        };
        sub.token_type == pat.token_type && lex_eq
    }
}

/// The first rule whose name token's lexeme equals `lex` outright.
fn find_rule_lex(rules: &Vec<crate::rule::Rule>, lex: &Option<String>) -> (r: Option<usize>)
    ensures
        match r {
            Option::Some(k) => spec_find_rule_lex(rules.deep_view(), view_opt_lex(*lex))
                == Option::Some(k as int) && k < rules@.len(),
            Option::None => spec_find_rule_lex(rules.deep_view(), view_opt_lex(*lex)) is None,
        },
{
    let n = rules.len();
    let mut k: usize = 0;
    while k < n
        invariant
            n == rules@.len(),
            0 <= k <= n,
            spec_find_rule_lex(rules.deep_view(), view_opt_lex(*lex)) == spec_find_rule_lex_from(
                rules.deep_view(),
                view_opt_lex(*lex),
                k as int,
            ),
        decreases n - k,
    {
        proof {
            assert(rules.deep_view()[k as int] == rules@[k as int]@);
        }
        let same = match (&rules[k].name.lexeme, lex) {
            (Option::Some(a), Option::Some(b)) => crate::extras::str_eq(a.as_str(), b.as_str()),
            (Option::None, Option::None) => true,
            _ => false,
        };
        if same {
            return Option::Some(k);
        }
        k = k + 1;
    }
    Option::None
}

/// The view of an optional owned lexeme.
pub open spec fn view_opt_lex(s: Option<String>) -> Option<Seq<char>> {
    match s {
        Option::Some(v) => Option::Some(v@),
        Option::None => Option::None,
    }
}

/// One subject-parsing session: the subject source and the shared,
/// read-only grammar it is parsed against.
#[derive(Debug)]
pub struct Unit<'u> {
    pub source: &'u Source,
    pub template: Arc<Template>,
}

impl<'u> Unit<'u> {
    pub fn new(source: &'u Source, template: Arc<Template>) -> (u: Unit<'u>)
        ensures
            u.source == source,
            u.template == template,
    {
        Unit { source, template }
    }

    /// Try one rule at the cursor: its variants in declaration order, the
    /// first that matches wins; on failure the cursor stands where it
    /// stood. `fuel` bounds the depth of rule references followed.
    #[verifier::loop_isolation(false)]
    pub fn check_rule(
        &self,
        source: &mut TokenIterator,
        rule: usize,
        fuel: u64,
    ) -> (r: Option<Path>)
        requires
            self.template@.rules is Some,
            rule < self.template@.rules->0.len(),
        ensures
            final(source).tokens == old(source).tokens,
            match r {
                Option::Some(p) => spec_check_rule(
                    self.template@.rules->0,
                    old(source).tokens.deep_view(),
                    old(source).current as int,
                    rule as int,
                    fuel as nat,
                ) == Option::Some((p@, final(source).current as int)),
                Option::None => {
                    &&& spec_check_rule(
                        self.template@.rules->0,
                        old(source).tokens.deep_view(),
                        old(source).current as int,
                        rule as int,
                        fuel as nat,
                    ) is None
                    &&& final(source).current == old(source).current
                },
            },
        decreases fuel, 1int,
    {
        let ghost rsv = self.template@.rules->0;
        let ghost tsv = source.tokens.deep_view();
        let ghost pos0 = source.current as int;
        if fuel == 0 {
            return Option::None;
        }
        let rules = match &self.template.rules {
            Option::Some(rs) => rs,
            Option::None => {
                proof {
                    assert(false);
                }
                vstd::pervasive::unreached()
            },
        };
        proof {
            assert(rsv[rule as int] == rules@[rule as int]@);
        }
        let nv = rules[rule].variants.len();
        let mut vi: usize = 0;
        while vi < nv
            invariant
                self.template@.rules == Option::Some(rsv),
                rsv[rule as int] == rules@[rule as int]@,
                rule < rsv.len(),
                nv == rsv[rule as int].variants.len(),
                0 <= vi <= nv,
                source.tokens == old(source).tokens,
                source.current == old(source).current,
                fuel >= 1,
                spec_check_variants(rsv, tsv, pos0, rule as int, 0, fuel as nat)
                    == spec_check_variants(rsv, tsv, pos0, rule as int, vi as int, fuel as nat),
            decreases nv - vi,
        {
            match self.check_variant(source, rule, vi, fuel) {
                Option::Some(p) => {
                    proof {
                        let np = source.current as int;
                        assert(spec_check_variant(rsv, tsv, pos0, rule as int, vi as int, fuel as nat)
                            == Option::Some((p@, np)));
                        assert(spec_walk(
                            rsv,
                            tsv,
                            pos0,
                            rule as int,
                            vi as int,
                            0,
                            0,
                            Seq::empty(),
                            fuel as nat,
                        ) is Some);
                        assert(spec_check_variants(rsv, tsv, pos0, rule as int, vi as int, fuel as nat)
                            == Option::Some((p@, np)));
                    }
                    return Option::Some(p);
                },
                Option::None => {
                    proof {
                        assert(spec_check_variant(rsv, tsv, pos0, rule as int, vi as int, fuel as nat)
                            is None);
                        assert(spec_walk(
                            rsv,
                            tsv,
                            pos0,
                            rule as int,
                            vi as int,
                            0,
                            0,
                            Seq::empty(),
                            fuel as nat,
                        ) is None);
                        assert(spec_check_variants(rsv, tsv, pos0, rule as int, vi as int, fuel as nat)
                            == spec_check_variants(
                            rsv,
                            tsv,
                            pos0,
                            rule as int,
                            vi + 1,
                            fuel as nat,
                        ));
                    }
                },
            }
            vi = vi + 1;
        }
        Option::None
    }

    /// Try one variant at the cursor: walk its pattern left to right,
    /// matching kinds, literals and rule references; on failure the cursor
    /// is put back where the attempt began.
    #[verifier::rlimit(60)]
    #[verifier::loop_isolation(false)]
    pub fn check_variant(
        &self,
        source: &mut TokenIterator,
        rule: usize,
        variant: usize,
        fuel: u64,
    ) -> (r: Option<Path>)
        requires
            self.template@.rules is Some,
            rule < self.template@.rules->0.len(),
            variant < self.template@.rules->0[rule as int].variants.len(),
        ensures
            final(source).tokens == old(source).tokens,
            match r {
                Option::Some(p) => spec_check_variant(
                    self.template@.rules->0,
                    old(source).tokens.deep_view(),
                    old(source).current as int,
                    rule as int,
                    variant as int,
                    fuel as nat,
                ) == Option::Some((p@, final(source).current as int)),
                Option::None => {
                    &&& spec_check_variant(
                        self.template@.rules->0,
                        old(source).tokens.deep_view(),
                        old(source).current as int,
                        rule as int,
                        variant as int,
                        fuel as nat,
                    ) is None
                    &&& final(source).current == old(source).current
                },
            },
        decreases fuel, 0int,
    {
        let ghost rsv = self.template@.rules->0;
        let ghost tsv = source.tokens.deep_view();
        let ghost ri = rule as int;
        let ghost vi = variant as int;
        let ghost fueln = fuel as nat;
        let rules = match &self.template.rules {
            Option::Some(rs) => rs,
            Option::None => {
                proof {
                    assert(false);
                }
                vstd::pervasive::unreached()
            },
        };
        proof {
            assert(rsv[ri] == rules@[ri]@);
        }
        let reset = source.current;
        let ghost pos0 = reset as int;
        let pattern = &rules[rule].variants[variant].tokens;
        let aliases = &rules[rule].variants[variant].aliases;
        proof {
            assert(pattern.deep_view() == rsv[ri].variants[vi].tokens);
            assert(aliases.deep_view() == rsv[ri].variants[vi].aliases);
        }
        let plen = pattern.len();
        let mut children: Vec<Path> = Vec::new();
        let mut idx: usize = 0;
        let mut alias: usize = 0;
        let ghost target = spec_walk(rsv, tsv, pos0, ri, vi, 0, 0, Seq::empty(), fueln);
        proof {
            assert(children.deep_view() =~= Seq::<SpecPath>::empty());
        }
        let mut complete = false;
        while idx < plen && !complete
            invariant
                0 <= idx,
                source.tokens == old(source).tokens,
                !complete ==> spec_walk(
                    rsv,
                    tsv,
                    source.current as int,
                    ri,
                    vi,
                    idx as int,
                    alias as int,
                    children.deep_view(),
                    fueln,
                ) == target,
                complete ==> target == Option::Some(
                    (children.deep_view(), source.current as int),
                ),
            decreases plen - idx, (if complete { 0int } else { 1int }),
        {
            let ghost ip = idx as int;
            let ghost st_cur = source.current as int;
            let ghost kids0 = children.deep_view();
            proof {
                assert(pattern.deep_view()[ip] == pattern@[ip]@);
            }
            let j = if is_escape_exec(&pattern[idx]) {
                idx + 1
            } else {
                idx
            };
            if j >= plen {
                proof {
                    assert(target == Option::Some((children.deep_view(), source.current as int)));
                }
                complete = true;
            } else {
                proof {
                    assert(pattern.deep_view()[j as int] == pattern@[j as int]@);
                }
                let at_alias = if alias < aliases.len() {
                    proof {
                        assert(aliases.deep_view()[alias as int] == aliases@[alias as int]@);
                    }
                    aliases[alias].token == j
                } else {
                    false
                };
                if at_alias {
                    let lx = lexeme_str(&pattern[j]);
                    if str_is_uppercase(lx) {
                        match Type::from_str(lx) {
                            Option::Some(k) => {
                                let matched = match source.get(0) {
                                    Option::Some(t) => t.token_type == k,
                                    Option::None => false,
                                };
                                if matched {
                                    source.next();
                                    idx = j + 1;
                                    alias = alias + 1;
                                } else {
                                    source.current = reset;
                                    return Option::None;
                                }
                            },
                            Option::None => {
                                source.current = reset;
                                return Option::None;
                            },
                        }
                    } else {
                        if fuel == 0 {
                            source.current = reset;
                            return Option::None;
                        }
                        match find_rule_lex(rules, &pattern[j].lexeme) {
                            Option::Some(r2) => {
                                match self.check_rule(source, r2, fuel - 1) {
                                    Option::Some(child) => {
                                        proof {
                                            assert(children.deep_view().push(child@) =~= kids0.push(
                                                child@,
                                            ));
                                        }
                                        children.push(child);
                                        proof {
                                            assert(children.deep_view() =~= kids0.push(
                                                children@[children@.len() - 1]@,
                                            ));
                                        }
                                        idx = j + 1;
                                        alias = alias + 1;
                                    },
                                    Option::None => {
                                        source.current = reset;
                                        return Option::None;
                                    },
                                }
                            },
                            Option::None => {
                                source.current = reset;
                                return Option::None;
                            },
                        }
                    }
                } else {
                    let matched = match source.get(0) {
                        Option::Some(t) => literal_match_exec(t, &pattern[j]),
                        Option::None => false,
                    };
                    if matched {
                        source.next();
                        idx = j + 1;
                    } else {
                        source.current = reset;
                        return Option::None;
                    }
                }
            }
        }
        proof {
            assert(target == Option::Some((children.deep_view(), source.current as int)));
        }
        let p = Path { rule, variant, children };
        proof {
            assert(p@.children =~= p.children.deep_view());
        }
        Option::Some(p)
    }

    /// Re-walk a matched path against the token stream, recording instead
    /// of verifying: each upper-case capture position resolves to the
    /// token index under the cursor, each rule reference builds the next
    /// child path, and every other pattern position moves the cursor on.
    #[verifier::rlimit(60)]
    #[verifier::loop_isolation(false)]
    pub fn parse_path(&self, source: &mut TokenIterator, path: &Path) -> (node: Node)
        requires
            self.template@.rules is Some,
        ensures
            final(source).tokens == old(source).tokens,
            ({
                let built = spec_build(
                    self.template@.rules->0,
                    old(source).tokens.deep_view().len() as int,
                    old(source).current as int,
                    path@,
                );
                &&& node@ == built.0
                &&& final(source).current as int == built.1
            }),
        decreases path@,
    {
        let ghost rsv = self.template@.rules->0;
        let ghost tslen = source.tokens.deep_view().len() as int;
        let ghost pos0 = source.current as int;
        let ghost pv = path@;
        let rules = match &self.template.rules {
            Option::Some(rs) => rs,
            Option::None => {
                proof {
                    assert(false);
                }
                vstd::pervasive::unreached()
            },
        };
        let ok = path.rule < rules.len() && path.variant
            < rules[path.rule].variants.len();
        if !ok {
            let node = Node {
                rule: path.rule,
                variant: path.variant,
                tokens: Vec::new(),
                children: Vec::new(),
            };
            proof {
                assert(node@.tokens =~= Seq::<SpecAlias>::empty());
                assert(node@.children =~= Seq::<SpecNode>::empty());
            }
            return node;
        }
        proof {
            assert(rsv[pv.rule] == rules@[path.rule as int]@);
        }
        let pattern = &rules[path.rule].variants[path.variant].tokens;
        let aliases = &rules[path.rule].variants[path.variant].aliases;
        proof {
            assert(pattern.deep_view() == rsv[pv.rule].variants[pv.variant].tokens);
            assert(aliases.deep_view() == rsv[pv.rule].variants[pv.variant].aliases);
        }
        let plen = pattern.len();
        let mut toks: Vec<Alias> = Vec::new();
        let mut kids: Vec<Node> = Vec::new();
        let mut idx: usize = 0;
        let mut alias: usize = 0;
        let mut cc: usize = 0;
        let ghost target = spec_build_walk(
            rsv,
            tslen,
            pos0,
            pv,
            0,
            0,
            0,
            Seq::empty(),
            Seq::empty(),
        );
        proof {
            assert(toks.deep_view() =~= Seq::<SpecAlias>::empty());
            assert(kids.deep_view() =~= Seq::<SpecNode>::empty());
        }
        let mut complete = false;
        while idx < plen && !complete
            invariant
                0 <= idx,
                0 <= cc,
                source.tokens == old(source).tokens,
                !complete ==> spec_build_walk(
                    rsv,
                    tslen,
                    source.current as int,
                    pv,
                    idx as int,
                    alias as int,
                    cc as int,
                    toks.deep_view(),
                    kids.deep_view(),
                ) == target,
                complete ==> target == (toks.deep_view(), kids.deep_view(), source.current as int),
            decreases plen - idx, (if complete { 0int } else { 1int }),
        {
            proof {
                assert(pattern.deep_view()[idx as int] == pattern@[idx as int]@);
            }
            let j = if is_escape_exec(&pattern[idx]) {
                idx + 1
            } else {
                idx
            };
            if j >= plen {
                proof {
                    assert(target == (toks.deep_view(), kids.deep_view(), source.current as int));
                }
                complete = true;
            } else {
                proof {
                    assert(pattern.deep_view()[j as int] == pattern@[j as int]@);
                }
                let at_alias = if alias < aliases.len() {
                    proof {
                        assert(aliases.deep_view()[alias as int] == aliases@[alias as int]@);
                    }
                    aliases[alias].token == j
                } else {
                    false
                };
                if at_alias {
                    let lx = lexeme_str(&pattern[j]);
                    if str_is_uppercase(lx) {
                        let ghost old_toks = toks.deep_view();
                        let cur0 = source.current;
                        toks.push(Alias::new(aliases[alias].name.clone(), cur0));
                        source.next();
                        proof {
                            assert(toks.deep_view() =~= old_toks.push(
                                SpecAlias {
                                    name: aliases.deep_view()[alias as int].name,
                                    token: cur0 as int,
                                },
                            ));
                        }
                        idx = j + 1;
                        alias = alias + 1;
                    } else {
                        if cc >= path.children.len() {
                            proof {
                                assert(target == (
                                    toks.deep_view(),
                                    kids.deep_view(),
                                    source.current as int,
                                ));
                            }
                            complete = true;
                        } else {
                            proof {
                                assert(pv.children[cc as int] == path.children@[cc as int]@);
                                assert(decreases_to!(pv => pv.children[cc as int]));
                            }
                            let child = self.parse_path(source, &path.children[cc]);
                            let ghost old_kids = kids.deep_view();
                            kids.push(child);
                            proof {
                                assert(kids.deep_view() =~= old_kids.push(
                                    kids@[kids@.len() - 1]@,
                                ));
                            }
                            cc = cc + 1;
                            idx = j + 1;
                            alias = alias + 1;
                        }
                    }
                } else {
                    source.next();
                    idx = j + 1;
                }
            }
        }
        proof {
            assert(target == (toks.deep_view(), kids.deep_view(), source.current as int));
        }
        let node = Node { rule: path.rule, variant: path.variant, tokens: toks, children: kids };
        proof {
            assert(node@.tokens =~= node.tokens.deep_view());
            assert(node@.children =~= node.children.deep_view());
        }
        node
    }

    /// Parse the whole subject: repeatedly match the first statement rule
    /// that fits at the cursor, then re-walk the matched paths to build
    /// the syntax trees. The paths and diagnostics are exactly what the
    /// specification's `spec_parse_loop` yields, and the trees exactly
    /// what `spec_build_all` makes of those paths.
    #[verifier::rlimit(60)]
    #[verifier::loop_isolation(false)]
    pub fn parse(&mut self) -> (out: Outcome<crate::compiler::AST>)
        requires
            old(self).source@.tokens is Some,
            old(self).template@.rules is Some,
        ensures
            *final(self) == *old(self),
            ({
                let rsv = old(self).template@.rules->0;
                let tsv = old(self).source@.tokens->0;
                let parsed = spec_parse_loop(
                    rsv,
                    tsv,
                    0,
                    Seq::empty(),
                    Seq::empty(),
                    MATCH_DEPTH as nat,
                );
                &&& out.value.nodes.deep_view() == spec_build_all(
                    rsv,
                    tsv.len() as int,
                    0,
                    parsed.0,
                    0,
                )
                &&& crate::error::spec_responses(out) == parsed.1
                &&& (out.response is None <==> parsed.1.len() == 0)
            }),
    {
        let ghost rsv = self.template@.rules->0;
        let ghost tsv = self.source@.tokens->0;
        let ghost fueln = MATCH_DEPTH as nat;
        let src: &'u Source = self.source;
        let tokens = match &src.tokens {
            Option::Some(ts) => ts,
            Option::None => {
                proof {
                    assert(false);
                }
                vstd::pervasive::unreached()
            },
        };
        proof {
            assert(tokens.deep_view() == tsv);
        }
        let rules = match &self.template.rules {
            Option::Some(rs) => rs,
            Option::None => {
                proof {
                    assert(false);
                }
                vstd::pervasive::unreached()
            },
        };
        let n = tokens.len();
        let mut source = TokenIterator::new(tokens);
        let mut paths: Vec<Path> = Vec::new();
        let mut responses: Vec<Response> = Vec::new();
        proof {
            assert(paths.deep_view() =~= Seq::<SpecPath>::empty());
            assert(responses.deep_view() =~= Seq::<SpecResponse>::empty());
        }
        let ghost target = spec_parse_loop(rsv, tsv, 0, Seq::empty(), Seq::empty(), fueln);
        let mut halted = false;
        while source.current < n && !halted
            invariant
                n == tsv.len(),
                source.tokens == tokens,
                0 <= source.current <= n,
                !halted ==> spec_parse_loop(
                    rsv,
                    tsv,
                    source.current as int,
                    paths.deep_view(),
                    responses.deep_view(),
                    fueln,
                ) == target,
                halted ==> target == (paths.deep_view(), responses.deep_view()),
            decreases n - source.current, (if halted { 0int } else { 1int }),
        {
            let before = source.current;
            let ghost pos0 = source.current as int;
            let ghost paths0 = paths.deep_view();
            let nr = rules.len();
            let mut found: Option<Path> = Option::None;
            let mut ri: usize = 0;
            while ri < nr && found.is_none()
                invariant
                    nr == rsv.len(),
                    0 <= ri <= nr,
                    source.tokens == tokens,
                    match found {
                        Option::Some(p) => spec_try_rules(rsv, tsv, pos0, 0, fueln)
                            == Option::Some((p@, source.current as int)),
                        Option::None => {
                            &&& source.current as int == pos0
                            &&& spec_try_rules(rsv, tsv, pos0, 0, fueln) == spec_try_rules(
                                rsv,
                                tsv,
                                pos0,
                                ri as int,
                                fueln,
                            )
                        },
                    },
                decreases nr - ri, (if found is Some { 0int } else { 1int }),
            {
                proof {
                    assert(rsv[ri as int] == rules@[ri as int]@);
                }
                if rules[ri].is_matching {
                    match self.check_rule(&mut source, ri, MATCH_DEPTH) {
                        Option::Some(p) => {
                            proof {
                                assert(spec_check_rule(rsv, tsv, pos0, ri as int, fueln)
                                    == Option::Some((p@, source.current as int)));
                            }
                            found = Option::Some(p);
                        },
                        Option::None => {
                            ri = ri + 1;
                        },
                    }
                } else {
                    ri = ri + 1;
                }
            }
            match found {
                Option::Some(p) => {
                    proof {
                        lemma_try_rules_bounds(rsv, tsv, pos0, 0, fueln);
                    }
                    let np = source.current;
                    let ghost pv = p@;
                    paths.push(p);
                    proof {
                        assert(paths.deep_view() =~= paths0.push(pv));
                    }
                    if np > before {
                        proof {
                            assert(spec_parse_loop(rsv, tsv, pos0, paths0, responses.deep_view(), fueln)
                                == spec_parse_loop(
                                rsv,
                                tsv,
                                np as int,
                                paths0.push(pv),
                                responses.deep_view(),
                                fueln,
                            ));
                        }
                    } else {
                        proof {
                            assert(target == (paths.deep_view(), responses.deep_view()));
                        }
                        halted = true;
                    }
                },
                Option::None => {
                    proof {
                        assert(source.current as int == pos0);
                        assert(tsv[pos0] == tokens@[source.current as int]@);
                    }
                    let t = &tokens[source.current];
                    let is_eof = match t.token_type {
                        Type::EOF => true,
                        _ => false,
                    };
                    if is_eof {
                        proof {
                            assert(target == (paths.deep_view(), responses.deep_view()));
                        }
                        halted = true;
                    } else {
                        let mut msg = String::new();
                        msg.append("no path matches at token: ");
                        msg.append(lexeme_str(t));
                        proof {
                            assert(msg@ =~= "no path matches at token: "@ + lexeme_of(tsv[pos0]));
                        }
                        let ghost old_rs = responses.deep_view();
                        responses.push(
                            Response::Error(
                                Option::Some(crate::token::PartialToken::Full(t.clone())),
                                msg,
                            ),
                        );
                        proof {
                            assert(responses.deep_view() =~= old_rs.push(
                                SpecResponse::Error(
                                    Option::Some(SpecPartial::Full(tsv[pos0])),
                                    "no path matches at token: "@ + lexeme_of(tsv[pos0]),
                                ),
                            ));
                            assert(target == (paths.deep_view(), responses.deep_view()));
                        }
                        halted = true;
                    }
                },
            }
        }
        proof {
            assert(target == (paths.deep_view(), responses.deep_view()));
        }

        // The second pass: build the syntax trees from the matched paths.
        source.current = 0;
        let ghost pathsv = paths.deep_view();
        let np = paths.len();
        let mut nodes: Vec<Node> = Vec::new();
        let mut k: usize = 0;
        proof {
            assert(nodes.deep_view() =~= Seq::<SpecNode>::empty());
        }
        while k < np
            invariant
                np == pathsv.len(),
                pathsv == paths.deep_view(),
                source.tokens == tokens,
                0 <= k <= np,
                spec_build_all(rsv, tsv.len() as int, 0, pathsv, 0) =~= nodes.deep_view()
                    + spec_build_all(
                    rsv,
                    tsv.len() as int,
                    source.current as int,
                    pathsv,
                    k as int,
                ),
            decreases np - k,
        {
            proof {
                assert(pathsv[k as int] == paths@[k as int]@);
            }
            let ghost old_nodes = nodes.deep_view();
            let node = self.parse_path(&mut source, &paths[k]);
            nodes.push(node);
            proof {
                assert(nodes.deep_view() =~= old_nodes.push(nodes@[nodes@.len() - 1]@));
                assert(old_nodes.push(nodes@[nodes@.len() - 1]@) + spec_build_all(
                    rsv,
                    tsv.len() as int,
                    source.current as int,
                    pathsv,
                    k + 1,
                ) =~= old_nodes + (seq![nodes@[nodes@.len() - 1]@] + spec_build_all(
                    rsv,
                    tsv.len() as int,
                    source.current as int,
                    pathsv,
                    k + 1,
                )));
            }
            k = k + 1;
        }
        proof {
            assert(spec_build_all(rsv, tsv.len() as int, source.current as int, pathsv, np as int)
                =~= Seq::<SpecNode>::empty());
            assert(nodes.deep_view() =~= spec_build_all(rsv, tsv.len() as int, 0, pathsv, 0));
        }

        let ast = crate::compiler::AST::new(nodes);
        let n_res = responses.len();
        if n_res > 0 {
            let out = Outcome::new(ast, Option::Some(responses));
            proof {
                assert(crate::error::spec_responses(out) == target.1);
            }
            out
        } else {
            let out = Outcome::new(ast, Option::None);
            proof {
                assert(target.1.len() == 0);
                assert(crate::error::spec_responses(out) =~= target.1);
            }
            out
        }
    }
}

} // verus!
