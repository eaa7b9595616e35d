use vstd::prelude::*;
use crate::error::SpecResponse;
use crate::extras::{is_alpha_char, is_digit_char, is_space_char};
use crate::lex::{
    alnum_run_end, bare_token, delims_step, digit_run_end, drain_dedents, first_delim,
    indent_adjust, lemma_alnum_run_end, lemma_digit_run_end, lemma_first_delim_bounds,
    lemma_string_close_bounds, lex_content, lex_indent, lex_init, lex_line, lex_lines,
    lexed_token, pop_dedents, spec_tokenize, string_close, LexState,
};
use crate::rule::{lexeme_of, SpecRule};
use crate::token::{SpecToken, Type};
use crate::tokenizer::{spec_comment_delims, spec_string_delims, SpecSource};
use crate::rule::SpecAlias;
use crate::unit::{
    is_escape, lemma_check_rule_bounds, literal_matches, pat_kind, pat_uppercase, spec_build,
    spec_build_walk, spec_check_rule, spec_check_variant, spec_check_variants, spec_parse_loop,
    spec_try_rules, spec_walk, SpecNode, SpecPath,
};

verus! {

// ---------------------------------------------------------------------------
// Laws of the library, stated once and proved from the specifications the
// executable code is proved against.
// ---------------------------------------------------------------------------

/// Tokenizing is deterministic: two sources holding the same lines and the
/// same directives tokenize to the same token sequence and the same
/// diagnostics; there is no hidden state. (`Source::tokenize` is proved to
/// return exactly `spec_tokenize` of its lines and configured delimiters,
/// so two runs over one source agree.)
pub proof fn lemma_tokenize_deterministic(a: SpecSource, b: SpecSource)
    requires
        a.lines == b.lines,
        a.directives == b.directives,
    ensures
        spec_tokenize(
            a.lines,
            spec_string_delims(a.directives),
            spec_comment_delims(a.directives),
        ).tokens == spec_tokenize(
            b.lines,
            spec_string_delims(b.directives),
            spec_comment_delims(b.directives),
        ).tokens,
        spec_tokenize(
            a.lines,
            spec_string_delims(a.directives),
            spec_comment_delims(a.directives),
        ).responses == spec_tokenize(
            b.lines,
            spec_string_delims(b.directives),
            spec_comment_delims(b.directives),
        ).responses,
{
}

// ---------------------------------------------------------------------------
// The indentation invariant.
// ---------------------------------------------------------------------------

/// What one token contributes to the running indentation depth.
pub open spec fn tok_delta(t: SpecToken) -> int {
    if t.token_type is Indent {
        1
    } else if t.token_type is Dedent {
        -1
    } else {
        0
    }
}

/// The indentation depth implied by the first `n` tokens: the number of
/// `Indent` tokens among them less the number of `Dedent` tokens.
pub open spec fn ind_depth(ts: Seq<SpecToken>, n: int) -> int
    decreases n,
    when 0 <= n <= ts.len()
{
    if n <= 0 {
        0
    } else {
        ind_depth(ts, n - 1) + tok_delta(ts[n - 1])
    }
}

proof fn lemma_depth_agree(a: Seq<SpecToken>, b: Seq<SpecToken>, n: int)
    requires
        0 <= n <= a.len(),
        n <= b.len(),
        forall|i: int| 0 <= i < n ==> a[i] == b[i],
    ensures
        ind_depth(a, n) == ind_depth(b, n),
    decreases n,
{
    if n > 0 {
        lemma_depth_agree(a, b, n - 1);
    }
}

/// The running invariant of the lexer: every prefix of the tokens so far
/// implies a non-negative depth, and the full depth is the height of the
/// open indentation stack.
pub open spec fn depth_ok(st: LexState) -> bool {
    &&& forall|n: int| 0 <= n <= st.tokens.len() ==> ind_depth(st.tokens, n) >= 0
    &&& ind_depth(st.tokens, st.tokens.len() as int) == st.indents.len()
}

proof fn lemma_depth_push(st: LexState, t: SpecToken, indents: Seq<int>)
    requires
        depth_ok(st),
        st.indents.len() + tok_delta(t) == indents.len(),
        st.indents.len() + tok_delta(t) >= 0,
    ensures
        depth_ok(LexState { tokens: st.tokens.push(t), indents, ..st }),
{
    let ts2 = st.tokens.push(t);
    assert forall|n: int| 0 <= n <= ts2.len() implies ind_depth(ts2, n) >= 0 by {
        if n <= st.tokens.len() {
            lemma_depth_agree(ts2, st.tokens, n);
        } else {
            lemma_depth_agree(ts2, st.tokens, n - 1);
        }
    }
    lemma_depth_agree(ts2, st.tokens, st.tokens.len() as int);
}

proof fn lemma_pop_dedents_depth(st: LexState, indent: int, l: int)
    requires
        depth_ok(st),
    ensures
        depth_ok(pop_dedents(st, indent, l)),
        pop_dedents(st, indent, l).comment == st.comment,
    decreases st.indents.len(),
{
    if st.indents.len() > 0 && indent < st.indents.last() {
        let st2 = LexState {
            tokens: st.tokens.push(bare_token(Type::Dedent, l)),
            indents: st.indents.drop_last(),
            ..st
        };
        lemma_depth_push(st, bare_token(Type::Dedent, l), st.indents.drop_last());
        lemma_pop_dedents_depth(st2, indent, l);
    }
}

proof fn lemma_indent_adjust_depth(st: LexState, indent: int, l: int)
    requires
        depth_ok(st),
    ensures
        depth_ok(indent_adjust(st, indent, l)),
        indent_adjust(st, indent, l).comment == st.comment,
{
    let top: int = if st.indents.len() > 0 {
        st.indents.last()
    } else {
        0
    };
    if indent < top {
        lemma_pop_dedents_depth(st, indent, l);
    } else if indent > top {
        lemma_depth_push(st, bare_token(Type::Indent, l), st.indents.push(indent));
    }
}

#[verifier::rlimit(30)]
proof fn lemma_lex_content_depth(
    line: Seq<char>,
    l: int,
    i: int,
    st: LexState,
    sd: Seq<Seq<char>>,
    cd: Seq<Seq<char>>,
)
    requires
        depth_ok(st),
    ensures
        depth_ok(lex_content(line, l, i, st, sd, cd)),
    decreases line.len() - i,
{
    if i < 0 || i >= line.len() {
    } else if st.comment != 0 {
        match first_delim(line, i, cd) {
            Option::Some(k) => {
                lemma_first_delim_bounds(line, i, cd, 0);
                let d = cd[k];
                let st1 = if (cd.len() == 2 || cd.len() == 3) && d == cd[1] {
                    LexState { comment: 0, ..st }
                } else {
                    st
                };
                lemma_lex_content_depth(line, l, i + d.len(), st1, sd, cd);
            },
            Option::None => {
                lemma_lex_content_depth(line, l, i + 1, st, sd, cd);
            },
        }
    } else if is_digit_char(line[i]) {
        lemma_digit_run_end(line, i + 1);
        let j = digit_run_end(line, i + 1);
        let st1 = LexState {
            tokens: st.tokens.push(lexed_token(Type::Number, l, i, j, line)),
            ..st
        };
        lemma_depth_push(st, lexed_token(Type::Number, l, i, j, line), st.indents);
        lemma_lex_content_depth(line, l, j, st1, sd, cd);
    } else if is_alpha_char(line[i]) {
        lemma_alnum_run_end(line, i + 1);
        let j = alnum_run_end(line, i + 1);
        let st1 = LexState {
            tokens: st.tokens.push(lexed_token(Type::Word, l, i, j, line)),
            ..st
        };
        lemma_depth_push(st, lexed_token(Type::Word, l, i, j, line), st.indents);
        lemma_lex_content_depth(line, l, j, st1, sd, cd);
    } else if first_delim(line, i, sd) is Some {
        lemma_first_delim_bounds(line, i, sd, 0);
        let d = sd[first_delim(line, i, sd)->0];
        match string_close(line, i + 1, line[i], d) {
            Option::Some(p) => {
                lemma_string_close_bounds(line, i + 1, line[i], d);
                let st1 = LexState {
                    tokens: st.tokens.push(lexed_token(Type::String, l, i + 1, p, line)),
                    ..st
                };
                lemma_depth_push(st, lexed_token(Type::String, l, i + 1, p, line), st.indents);
                lemma_lex_content_depth(line, l, p + d.len(), st1, sd, cd);
            },
            Option::None => {},
        }
    } else if first_delim(line, i, cd) is Some {
        lemma_first_delim_bounds(line, i, cd, 0);
        let d = cd[first_delim(line, i, cd)->0];
        if cd.len() == 1 {
        } else if cd.len() == 2 {
            if d == cd[1] {
                let st1 = LexState {
                    responses: st.responses.push(
                        crate::lex::error_at(
                            l,
                            i,
                            i + d.len(),
                            "unexpected block comment terminator"@,
                        ),
                    ),
                    ..st
                };
                lemma_lex_content_depth(line, l, i + d.len(), st1, sd, cd);
            } else {
                lemma_lex_content_depth(line, l, i + d.len(), LexState { comment: l, ..st }, sd, cd);
            }
        } else if cd.len() == 3 {
            if d == cd[1] {
                let st1 = LexState {
                    responses: st.responses.push(
                        crate::lex::error_at(
                            l,
                            i,
                            i + d.len(),
                            "unexpected block comment terminator"@,
                        ),
                    ),
                    ..st
                };
                lemma_lex_content_depth(line, l, i + d.len(), st1, sd, cd);
            }
        } else {
            lemma_lex_content_depth(line, l, i + d.len(), st, sd, cd);
        }
    } else if !is_space_char(line[i]) {
        let st1 = LexState {
            tokens: st.tokens.push(lexed_token(Type::Symbol, l, i, i + 1, line)),
            ..st
        };
        lemma_depth_push(st, lexed_token(Type::Symbol, l, i, i + 1, line), st.indents);
        lemma_lex_content_depth(line, l, i + 1, st1, sd, cd);
    } else {
        lemma_lex_content_depth(line, l, i + 1, st, sd, cd);
    }
}

proof fn lemma_lex_indent_depth(
    line: Seq<char>,
    l: int,
    i: int,
    indent: int,
    st: LexState,
    sd: Seq<Seq<char>>,
    cd: Seq<Seq<char>>,
)
    requires
        depth_ok(st),
    ensures
        depth_ok(lex_indent(line, l, i, indent, st, sd, cd)),
    decreases line.len() - i,
{
    if i < 0 || i >= line.len() {
    } else if crate::extras::is_space_char(line[i]) {
        lemma_lex_indent_depth(line, l, i + 1, indent + 1, st, sd, cd);
    } else {
        let st1 = if st.comment == 0 {
            indent_adjust(st, indent, l)
        } else {
            st
        };
        if st.comment == 0 {
            lemma_indent_adjust_depth(st, indent, l);
        }
        lemma_lex_content_depth(line, l, i, st1, sd, cd);
    }
}

proof fn lemma_lex_line_depth(
    line: Seq<char>,
    l: int,
    st: LexState,
    sd: Seq<Seq<char>>,
    cd: Seq<Seq<char>>,
)
    requires
        depth_ok(st),
    ensures
        depth_ok(lex_line(line, l, st, sd, cd)),
{
    let st1 = delims_step(st, l, cd);
    assert(depth_ok(st1));
    lemma_lex_indent_depth(line, l, 0, 0, st1, sd, cd);
    let st2 = lex_indent(line, l, 0, 0, st1, sd, cd);
    if st2.comment == 0 && st2.tokens.len() > 0 && !(st2.tokens.last().token_type is EOL)
        && !(st2.tokens.last().token_type is Dedent) {
        lemma_depth_push(st2, bare_token(Type::EOL, l), st2.indents);
    }
}

proof fn lemma_lex_lines_depth(
    lines: Seq<Seq<char>>,
    sd: Seq<Seq<char>>,
    cd: Seq<Seq<char>>,
    l: int,
    st: LexState,
)
    requires
        depth_ok(st),
    ensures
        depth_ok(lex_lines(lines, sd, cd, l, st)),
    decreases lines.len() - l,
{
    if l < 0 || l >= lines.len() {
    } else {
        lemma_lex_line_depth(lines[l], l + 1, st, sd, cd);
        lemma_lex_lines_depth(lines, sd, cd, l + 1, lex_line(lines[l], l + 1, st, sd, cd));
    }
}

proof fn lemma_drain_dedents_depth(st: LexState, l: int)
    requires
        depth_ok(st),
    ensures
        depth_ok(drain_dedents(st, l)),
        drain_dedents(st, l).indents.len() == 0,
    decreases st.indents.len(),
{
    if st.indents.len() > 0 {
        let st2 = LexState {
            tokens: st.tokens.push(bare_token(Type::Dedent, l)),
            indents: st.indents.drop_last(),
            ..st
        };
        lemma_depth_push(st, bare_token(Type::Dedent, l), st.indents.drop_last());
        lemma_drain_dedents_depth(st2, l);
    }
}

/// The indentation invariant: in any tokenized output, the running depth
/// implied by `Indent` and `Dedent` tokens never goes negative, and the
/// final depth is zero — every opened level is closed by the end of the
/// stream.
pub proof fn lemma_indentation_depth(
    lines: Seq<Seq<char>>,
    sd: Seq<Seq<char>>,
    cd: Seq<Seq<char>>,
)
    ensures
        ({
            let ts = spec_tokenize(lines, sd, cd).tokens;
            &&& forall|n: int| 0 <= n <= ts.len() ==> ind_depth(ts, n) >= 0
            &&& ind_depth(ts, ts.len() as int) == 0
        }),
{
    assert(depth_ok(lex_init())) by {
        assert(ind_depth(lex_init().tokens, 0) == 0);
    }
    lemma_lex_lines_depth(lines, sd, cd, 0, lex_init());
    let st = lex_lines(lines, sd, cd, 0, lex_init());
    let st1 = if st.comment != 0 {
        LexState {
            responses: st.responses.push(
                crate::lex::error_at(st.comment, st.comment, st.comment, "unterminated block comment"@),
            ),
            ..st
        }
    } else {
        st
    };
    assert(depth_ok(st1));
    lemma_drain_dedents_depth(st1, lines.len() as int);
    let st2 = drain_dedents(st1, lines.len() as int);
    lemma_depth_push(st2, bare_token(Type::EOF, lines.len() as int), st2.indents);
}

/// The matcher always selects the first variant, in declaration order,
/// that can match at the cursor: if every variant before `v1` fails there
/// and `v1` matches, the rule's whole answer is `v1`'s answer.
pub proof fn lemma_first_match_wins(
    rs: Seq<SpecRule>,
    ts: Seq<SpecToken>,
    pos: int,
    r: int,
    v1: int,
    fuel: nat,
)
    requires
        0 <= r < rs.len(),
        fuel > 0,
        0 <= v1 < rs[r].variants.len(),
        spec_check_variant(rs, ts, pos, r, v1, fuel) is Some,
        forall|v: int| 0 <= v < v1 ==> spec_check_variant(rs, ts, pos, r, v, fuel) is None,
    ensures
        spec_check_rule(rs, ts, pos, r, fuel) == spec_check_variant(rs, ts, pos, r, v1, fuel),
        (spec_check_rule(rs, ts, pos, r, fuel)->0).0.variant == v1,
{
    lemma_variants_skip_to(rs, ts, pos, r, 0, v1, fuel);
}

proof fn lemma_variants_skip_to(
    rs: Seq<SpecRule>,
    ts: Seq<SpecToken>,
    pos: int,
    r: int,
    v: int,
    v1: int,
    fuel: nat,
)
    requires
        0 <= r < rs.len(),
        fuel > 0,
        0 <= v <= v1 < rs[r].variants.len(),
        spec_check_variant(rs, ts, pos, r, v1, fuel) is Some,
        forall|u: int| v <= u < v1 ==> spec_check_variant(rs, ts, pos, r, u, fuel) is None,
    ensures
        spec_check_variants(rs, ts, pos, r, v, fuel) == spec_check_variant(
            rs,
            ts,
            pos,
            r,
            v1,
            fuel,
        ),
        (spec_check_variants(rs, ts, pos, r, v, fuel)->0).0.variant == v1,
    decreases v1 - v,
{
    if v == v1 {
        assert(spec_walk(rs, ts, pos, r, v, 0, 0, Seq::empty(), fuel) is Some);
    } else {
        assert(spec_check_variant(rs, ts, pos, r, v, fuel) is None);
        assert(spec_walk(rs, ts, pos, r, v, 0, 0, Seq::empty(), fuel) is None);
        lemma_variants_skip_to(rs, ts, pos, r, v + 1, v1, fuel);
    }
}

/// Against a grammar with no statement rules, any subject whose first
/// token is not the end-of-file token fails with exactly one fatal match
/// error naming that token; nothing is matched.
pub proof fn lemma_no_matching_rule_is_fatal(rs: Seq<SpecRule>, ts: Seq<SpecToken>, fuel: nat)
    requires
        forall|r: int| 0 <= r < rs.len() ==> !(#[trigger] rs[r]).is_matching,
        ts.len() > 0,
        !(ts[0].token_type is EOF),
    ensures
        spec_parse_loop(rs, ts, 0, Seq::empty(), Seq::empty(), fuel).0 == Seq::<
            crate::unit::SpecPath,
        >::empty(),
        spec_parse_loop(rs, ts, 0, Seq::empty(), Seq::empty(), fuel).1 == seq![
            SpecResponse::Error(
                Option::Some(crate::error::SpecPartial::Full(ts[0])),
                "no path matches at token: "@ + lexeme_of(ts[0]),
            ),
        ],
{
    lemma_try_rules_none(rs, ts, 0, 0, fuel);
    assert(Seq::<SpecResponse>::empty().push(
        SpecResponse::Error(
            Option::Some(crate::error::SpecPartial::Full(ts[0])),
            "no path matches at token: "@ + lexeme_of(ts[0]),
        ),
    ) =~= seq![
        SpecResponse::Error(
            Option::Some(crate::error::SpecPartial::Full(ts[0])),
            "no path matches at token: "@ + lexeme_of(ts[0]),
        ),
    ]);
}

proof fn lemma_try_rules_none(rs: Seq<SpecRule>, ts: Seq<SpecToken>, pos: int, ri: int, fuel: nat)
    requires
        forall|r: int| 0 <= r < rs.len() ==> !(#[trigger] rs[r]).is_matching,
        0 <= ri,
    ensures
        spec_try_rules(rs, ts, pos, ri, fuel) is None,
    decreases rs.len() - ri,
{
    if ri < rs.len() {
        lemma_try_rules_none(rs, ts, pos, ri + 1, fuel);
    }
}


// ---------------------------------------------------------------------------
// Round-trip capture: building a matched path resolves every capture.
// ---------------------------------------------------------------------------

/// Well-formed capture lists, as the grammar compiler produces them: each
/// capture names a real, non-escape pattern position, and positions rise
/// strictly.
pub open spec fn aliases_wf(pat: Seq<SpecToken>, aliases: Seq<SpecAlias>) -> bool {
    &&& forall|a: int|
        0 <= a < aliases.len() ==> 0 <= (#[trigger] aliases[a]).token < pat.len() && !is_escape(
            pat[aliases[a].token],
        )
    &&& forall|a: int, b: int|
        0 <= a < b < aliases.len() ==> (#[trigger] aliases[a]).token < (
        #[trigger] aliases[b]).token
}

/// Every variant of the grammar carries a well-formed capture list.
pub open spec fn grammar_wf(rs: Seq<SpecRule>) -> bool {
    forall|r: int, v: int|
        0 <= r < rs.len() && 0 <= v < (#[trigger] rs[r]).variants.len() ==> aliases_wf(
            (#[trigger] rs[r].variants[v]).tokens,
            rs[r].variants[v].aliases,
        )
}

/// What a resolved capture list must look like, capture point by capture
/// point from index `a` on: every upper-case capture has exactly one
/// entry, in order, carrying the capture's name and the index of a token
/// of the kind the pattern position required.
pub open spec fn caps_ok(
    caps: Seq<SpecAlias>,
    aliases: Seq<SpecAlias>,
    a: int,
    pat: Seq<SpecToken>,
    ts: Seq<SpecToken>,
) -> bool
    decreases aliases.len() - a,
    when 0 <= a
{
    if a >= aliases.len() {
        caps.len() == 0
    } else if 0 <= aliases[a].token < pat.len() && pat_uppercase(pat[aliases[a].token]) {
        &&& caps.len() > 0
        &&& caps[0].name == aliases[a].name
        &&& 0 <= caps[0].token < ts.len()
        &&& pat_kind(pat[aliases[a].token]) is Some
        &&& ts[caps[0].token].token_type == pat_kind(pat[aliases[a].token])->0
        &&& caps_ok(caps.skip(1), aliases, a + 1, pat, ts)
    } else {
        caps_ok(caps, aliases, a + 1, pat, ts)
    }
}

/// Walking with gathered children is walking afresh, the children carried
/// along in front.
proof fn lemma_walk_acc(
    rs: Seq<SpecRule>,
    ts: Seq<SpecToken>,
    pos: int,
    r: int,
    v: int,
    idx: int,
    alias: int,
    acc: Seq<SpecPath>,
    fuel: nat,
)
    requires
        0 <= r < rs.len(),
        0 <= v < rs[r].variants.len(),
        0 <= idx,
    ensures
        spec_walk(rs, ts, pos, r, v, idx, alias, acc, fuel) is Some <==> spec_walk(
            rs,
            ts,
            pos,
            r,
            v,
            idx,
            alias,
            Seq::empty(),
            fuel,
        ) is Some,
        spec_walk(rs, ts, pos, r, v, idx, alias, acc, fuel) matches Option::Some(w) ==> {
            let w0 = spec_walk(rs, ts, pos, r, v, idx, alias, Seq::empty(), fuel)->0;
            w.0 == acc + w0.0 && w.1 == w0.1
        },
    decreases fuel, 0int, rs[r].variants.len() - v, rs[r].variants[v].tokens.len() - idx,
{
    let pat = rs[r].variants[v].tokens;
    let aliases = rs[r].variants[v].aliases;
    if idx >= pat.len() {
        assert(acc + Seq::<SpecPath>::empty() =~= acc);
    } else {
        let j = if is_escape(pat[idx]) {
            idx + 1
        } else {
            idx
        };
        if j >= pat.len() {
            assert(acc + Seq::<SpecPath>::empty() =~= acc);
        } else if alias < aliases.len() && j == aliases[alias].token {
            if pat_uppercase(pat[j]) {
                match pat_kind(pat[j]) {
                    Option::Some(k) => {
                        if 0 <= pos < ts.len() && ts[pos].token_type == k {
                            lemma_walk_acc(rs, ts, pos + 1, r, v, j + 1, alias + 1, acc, fuel);
                        }
                    },
                    Option::None => {},
                }
            } else {
                if fuel > 0 {
                    match crate::template::spec_find_rule_lex(rs, pat[j].lexeme) {
                        Option::Some(r2) => {
                            match spec_check_rule(rs, ts, pos, r2, (fuel - 1) as nat) {
                                Option::Some(c) => {
                                    lemma_walk_acc(
                                        rs,
                                        ts,
                                        c.1,
                                        r,
                                        v,
                                        j + 1,
                                        alias + 1,
                                        acc.push(c.0),
                                        fuel,
                                    );
                                    lemma_walk_acc(
                                        rs,
                                        ts,
                                        c.1,
                                        r,
                                        v,
                                        j + 1,
                                        alias + 1,
                                        Seq::empty().push(c.0),
                                        fuel,
                                    );
                                    if spec_walk(rs, ts, c.1, r, v, j + 1, alias + 1, Seq::empty(), fuel)
                                        is Some {
                                        let w0 = spec_walk(
                                            rs,
                                            ts,
                                            c.1,
                                            r,
                                            v,
                                            j + 1,
                                            alias + 1,
                                            Seq::empty(),
                                            fuel,
                                        )->0;
                                        assert(acc.push(c.0) + w0.0 =~= acc + (Seq::empty().push(
                                            c.0,
                                        ) + w0.0));
                                    }
                                },
                                Option::None => {},
                            }
                        },
                        Option::None => {},
                    }
                }
            }
        } else {
            if 0 <= pos < ts.len() && literal_matches(ts[pos], pat[j]) {
                lemma_walk_acc(rs, ts, pos + 1, r, v, j + 1, alias, acc, fuel);
            }
        }
    }
}

/// The heart of the round trip: if the matcher's walk succeeds, the
/// builder's walk over the resulting path visits the same positions,
/// finishes at the same cursor, and resolves every remaining capture.
#[verifier::rlimit(100)]
proof fn lemma_rt_walk(
    rs: Seq<SpecRule>,
    ts: Seq<SpecToken>,
    pos: int,
    r: int,
    v: int,
    idx: int,
    alias: int,
    fuel: nat,
    p: SpecPath,
    cc: int,
    toks0: Seq<SpecAlias>,
    kids0: Seq<SpecNode>,
)
    requires
        grammar_wf(rs),
        0 <= r < rs.len(),
        0 <= v < rs[r].variants.len(),
        0 <= idx,
        0 <= alias <= rs[r].variants[v].aliases.len(),
        alias < rs[r].variants[v].aliases.len() ==> rs[r].variants[v].aliases[alias].token >= idx,
        0 <= pos <= ts.len(),
        spec_walk(rs, ts, pos, r, v, idx, alias, Seq::empty(), fuel) is Some,
        p.rule == r,
        p.variant == v,
        0 <= cc <= p.children.len(),
        p.children.skip(cc) == (spec_walk(rs, ts, pos, r, v, idx, alias, Seq::empty(), fuel)->0).0,
    ensures
        ({
            let w = spec_walk(rs, ts, pos, r, v, idx, alias, Seq::empty(), fuel)->0;
            let b = spec_build_walk(rs, ts.len() as int, pos, p, idx, alias, cc, toks0, kids0);
            &&& b.2 == w.1
            &&& b.0.len() >= toks0.len()
            &&& b.0.subrange(0, toks0.len() as int) == toks0
            &&& caps_ok(
                b.0.skip(toks0.len() as int),
                rs[r].variants[v].aliases,
                alias,
                rs[r].variants[v].tokens,
                ts,
            )
        }),
    decreases fuel, 0int, rs[r].variants.len() - v, rs[r].variants[v].tokens.len() - idx,
{
    let pat = rs[r].variants[v].tokens;
    let aliases = rs[r].variants[v].aliases;
    let tslen = ts.len() as int;
    if idx >= pat.len() {
        // The walk and the build both end here.
        assert(alias >= aliases.len());
        assert(toks0.subrange(0, toks0.len() as int) =~= toks0);
        assert(toks0.skip(toks0.len() as int) =~= Seq::<SpecAlias>::empty());
    } else {
        let j = if is_escape(pat[idx]) {
            idx + 1
        } else {
            idx
        };
        if j >= pat.len() {
            // A trailing escape: the capture list must already be spent,
            // since capture positions are not escape markers.
            assert(alias >= aliases.len()) by {
                if alias < aliases.len() {
                    assert(aliases[alias].token == idx);
                    assert(!is_escape(pat[aliases[alias].token]));
                }
            }
            assert(toks0.subrange(0, toks0.len() as int) =~= toks0);
            assert(toks0.skip(toks0.len() as int) =~= Seq::<SpecAlias>::empty());
        } else if alias < aliases.len() && j == aliases[alias].token {
            if pat_uppercase(pat[j]) {
                let k = pat_kind(pat[j])->0;
                assert(pat_kind(pat[j]) is Some && 0 <= pos < ts.len() && ts[pos].token_type
                    == k);
                let entry = SpecAlias { name: aliases[alias].name, token: pos };
                let toks1 = toks0.push(entry);
                assert(alias + 1 < aliases.len() ==> aliases[alias + 1].token >= j + 1);
                lemma_rt_walk(rs, ts, pos + 1, r, v, j + 1, alias + 1, fuel, p, cc, toks1, kids0);
                let w = spec_walk(rs, ts, pos, r, v, idx, alias, Seq::empty(), fuel)->0;
                let b = spec_build_walk(rs, tslen, pos, p, idx, alias, cc, toks0, kids0);
                let b1 = spec_build_walk(rs, tslen, pos + 1, p, j + 1, alias + 1, cc, toks1, kids0);
                assert(b == b1);
                assert(b.0.subrange(0, toks1.len() as int) == toks1);
                assert(b.0[toks0.len() as int] == toks1[toks0.len() as int]) by {
                    let m = toks0.len() as int;
                    assert(b.0.subrange(0, toks1.len() as int)[m] == toks1[m]);
                }
                assert(b.0.subrange(0, toks0.len() as int) =~= toks1.subrange(
                    0,
                    toks0.len() as int,
                ));
                assert(b.0.skip(toks0.len() as int)[0] == entry);
                assert(b.0.skip(toks0.len() as int).skip(1) =~= b.0.skip(toks1.len() as int));
            } else {
                assert(fuel > 0);
                let r2 = crate::template::spec_find_rule_lex(rs, pat[j].lexeme)->0;
                let c = spec_check_rule(rs, ts, pos, r2, (fuel - 1) as nat)->0;
                lemma_check_rule_bounds(rs, ts, pos, r2, (fuel - 1) as nat);
                lemma_rt_rule(rs, ts, pos, r2, (fuel - 1) as nat);
                // The first remaining child is the sub-rule's path.
                lemma_walk_acc(
                    rs,
                    ts,
                    c.1,
                    r,
                    v,
                    j + 1,
                    alias + 1,
                    Seq::empty().push(c.0),
                    fuel,
                );
                let rest = (spec_walk(rs, ts, c.1, r, v, j + 1, alias + 1, Seq::empty(), fuel)->0).0;
                assert(p.children.skip(cc) == Seq::empty().push(c.0) + rest);
                assert(p.children.skip(cc).len() == p.children.len() - cc);
                assert(p.children.len() > cc);
                assert(p.children[cc] == c.0) by {
                    assert(p.children.skip(cc)[0] == (Seq::empty().push(c.0) + rest)[0]);
                }
                assert(p.children.skip(cc + 1) =~= rest) by {
                    assert forall|m: int| 0 <= m < rest.len() implies p.children.skip(cc + 1)[m]
                        == rest[m] by {
                        assert(p.children.skip(cc)[m + 1] == (Seq::empty().push(c.0) + rest)[m
                            + 1]);
                    }
                }
                let built_child = spec_build(rs, tslen, pos, c.0);
                assert(built_child.1 == c.1);
                assert(alias + 1 < aliases.len() ==> aliases[alias + 1].token >= j + 1);
                lemma_rt_walk(
                    rs,
                    ts,
                    c.1,
                    r,
                    v,
                    j + 1,
                    alias + 1,
                    fuel,
                    p,
                    cc + 1,
                    toks0,
                    kids0.push(built_child.0),
                );
            }
        } else {
            assert(0 <= pos < ts.len() && literal_matches(ts[pos], pat[j]));
            assert(alias < aliases.len() ==> aliases[alias].token >= j + 1) by {
                if alias < aliases.len() {
                    assert(aliases[alias].token != j);
                    if is_escape(pat[idx]) && aliases[alias].token == idx {
                        assert(!is_escape(pat[aliases[alias].token]));
                    }
                }
            }
            lemma_rt_walk(rs, ts, pos + 1, r, v, j + 1, alias, fuel, p, cc, toks0, kids0);
        }
    }
}

/// A matched rule builds to a node, and the builder's cursor lands exactly
/// where the matcher's did.
proof fn lemma_rt_rule(rs: Seq<SpecRule>, ts: Seq<SpecToken>, pos: int, r: int, fuel: nat)
    requires
        grammar_wf(rs),
        0 <= pos <= ts.len(),
        spec_check_rule(rs, ts, pos, r, fuel) is Some,
    ensures
        ({
            let c = spec_check_rule(rs, ts, pos, r, fuel)->0;
            spec_build(rs, ts.len() as int, pos, c.0).1 == c.1
        }),
    decreases fuel, 2int, 0int, 0int,
{
    lemma_rt_variants(rs, ts, pos, r, 0, fuel);
}

proof fn lemma_rt_variants(rs: Seq<SpecRule>, ts: Seq<SpecToken>, pos: int, r: int, v: int, fuel: nat)
    requires
        grammar_wf(rs),
        0 <= r < rs.len(),
        0 <= v,
        0 <= pos <= ts.len(),
        fuel > 0,
        spec_check_variants(rs, ts, pos, r, v, fuel) is Some,
    ensures
        ({
            let c = spec_check_variants(rs, ts, pos, r, v, fuel)->0;
            spec_build(rs, ts.len() as int, pos, c.0).1 == c.1
        }),
    decreases fuel, 1int, rs[r].variants.len() - v, 0int,
{
    if v >= rs[r].variants.len() {
    } else {
        match spec_walk(rs, ts, pos, r, v, 0, 0, Seq::empty(), fuel) {
            Option::Some(w) => {
                let aliases = rs[r].variants[v].aliases;
                assert(aliases_wf(rs[r].variants[v].tokens, aliases));
                let p = SpecPath { rule: r, variant: v, children: w.0 };
                assert(p.children.skip(0) =~= w.0);
                lemma_rt_walk(rs, ts, pos, r, v, 0, 0, fuel, p, 0, Seq::empty(), Seq::empty());
            },
            Option::None => {
                lemma_rt_variants(rs, ts, pos, r, v + 1, fuel);
            },
        }
    }
}

/// Round-trip capture: matching a variant that records a capture at some
/// upper-case (token-kind) pattern position, and then building the node
/// from the matched path, yields a capture list in which that capture's
/// name resolves, in order, to a token index whose token is of exactly the
/// kind the pattern position required.
pub proof fn lemma_round_trip_capture(
    rs: Seq<SpecRule>,
    ts: Seq<SpecToken>,
    pos: int,
    r: int,
    v: int,
    fuel: nat,
)
    requires
        grammar_wf(rs),
        0 <= r < rs.len(),
        0 <= v < rs[r].variants.len(),
        0 <= pos <= ts.len(),
        spec_check_variant(rs, ts, pos, r, v, fuel) is Some,
    ensures
        ({
            let w = spec_check_variant(rs, ts, pos, r, v, fuel)->0;
            let built = spec_build(rs, ts.len() as int, pos, w.0);
            &&& built.1 == w.1
            &&& caps_ok(
                built.0.tokens,
                rs[r].variants[v].aliases,
                0,
                rs[r].variants[v].tokens,
                ts,
            )
        }),
{
    let w0 = spec_walk(rs, ts, pos, r, v, 0, 0, Seq::empty(), fuel);
    assert(w0 is Some);
    let w = w0->0;
    let p = SpecPath { rule: r, variant: v, children: w.0 };
    assert(p.children.skip(0) =~= w.0);
    lemma_rt_walk(rs, ts, pos, r, v, 0, 0, fuel, p, 0, Seq::empty(), Seq::empty());
    let b = spec_build_walk(rs, ts.len() as int, pos, p, 0, 0, 0, Seq::empty(), Seq::empty());
    assert(b.0.skip(0) =~= b.0);
    assert(b.0.subrange(0, 0) =~= Seq::<SpecAlias>::empty());
}

} // verus!
