use vstd::prelude::*;
use vstd::string::StringExecFns;
use crate::error::{Outcome, Response, SpecPartial, SpecResponse};
use crate::extras::{spec_is_uppercase, upper_of};
use crate::rule::{lexeme_of, Alias, Rule, Segment, SpecAlias, SpecRule, SpecSegment, SpecVariant, Variant};
use crate::token::{spec_type_from_str, PartialToken, SpecToken, Token, TokenIterator, Type};
use crate::tokenizer::{Source, SpecSource};

verus! {

// ---------------------------------------------------------------------------
// The grammar compiler as a mathematical function.
//
// `Template::parse` is proved to compute exactly what these functions
// describe: a scan of the grammar source's token stream for rule headers,
// each followed by an indented body of variants and segments.
// ---------------------------------------------------------------------------

/// Whether a token at `pos` carries the given lexeme.
pub open spec fn lex_at(ts: Seq<SpecToken>, pos: int, x: Seq<char>) -> bool {
    0 <= pos < ts.len() && ts[pos].lexeme == Option::Some(x)
}

/// Whether a token at `pos` is of the given kind.
pub open spec fn kind_at(ts: Seq<SpecToken>, pos: int, k: Type) -> bool {
    0 <= pos < ts.len() && ts[pos].token_type == k
}

/// A rule header: a word, a `:` or `!` symbol, and the end of the line.
pub open spec fn hdr_rule(ts: Seq<SpecToken>, pos: int) -> bool {
    &&& kind_at(ts, pos, Type::Word)
    &&& kind_at(ts, pos + 1, Type::Symbol)
    &&& (lex_at(ts, pos + 1, ":"@) || lex_at(ts, pos + 1, "!"@))
    &&& kind_at(ts, pos + 2, Type::EOL)
}

/// A variant header: a word followed by `:` and `=`.
pub open spec fn hdr_variant(ts: Seq<SpecToken>, pos: int) -> bool {
    &&& kind_at(ts, pos, Type::Word)
    &&& lex_at(ts, pos + 1, ":"@)
    &&& lex_at(ts, pos + 2, "="@)
}

/// A segment header inside a rule body: `[`, a word, `]`, end of line.
pub open spec fn hdr_seg_rule(ts: Seq<SpecToken>, pos: int) -> bool {
    &&& lex_at(ts, pos, "["@)
    &&& kind_at(ts, pos + 1, Type::Word)
    &&& lex_at(ts, pos + 2, "]"@)
    &&& kind_at(ts, pos + 3, Type::EOL)
}

/// A segment header inside a variant body: as above, with the brackets
/// required to be symbols.
pub open spec fn hdr_seg_variant(ts: Seq<SpecToken>, pos: int) -> bool {
    &&& kind_at(ts, pos, Type::Symbol) && lex_at(ts, pos, "["@)
    &&& kind_at(ts, pos + 1, Type::Word)
    &&& kind_at(ts, pos + 2, Type::Symbol) && lex_at(ts, pos + 2, "]"@)
    &&& kind_at(ts, pos + 3, Type::EOL)
}

/// An alias prelude inside a pattern: a word followed by a `:` symbol.
pub open spec fn hdr_alias(ts: Seq<SpecToken>, pos: int) -> bool {
    &&& kind_at(ts, pos, Type::Word)
    &&& kind_at(ts, pos + 1, Type::Symbol) && lex_at(ts, pos + 1, ":"@)
}

/// A grammar-compile error at the position of the offending name.
pub open spec fn grammar_error(name: SpecToken, what: Seq<char>) -> SpecResponse {
    SpecResponse::Error(
        Option::Some(SpecPartial::Pos { line: name.line, start: name.start, end: name.end }),
        what + lexeme_of(name),
    )
}

/// Where the cursor stands after `next`: one further unless at the end.
pub open spec fn step_pos(ts: Seq<SpecToken>, pos: int) -> int {
    if 0 <= pos < ts.len() {
        pos + 1
    } else {
        pos
    }
}

/// What one segment body's depth-counting collection yields: the tokens
/// gathered, the position reached (before the closing `Dedent` is eaten),
/// and whether the tokens ran out first.
pub ghost struct SegBodyOut {
    pub toks: Seq<SpecToken>,
    pub pos: int,
    pub missing: bool,
}

pub open spec fn spec_seg_body(ts: Seq<SpecToken>, pos: int, dent: int, acc: Seq<SpecToken>) -> SegBodyOut
    decreases ts.len() - pos,
    when 0 <= pos
{
    if dent <= 0 {
        SegBodyOut { toks: acc, pos, missing: false }
    } else if pos >= ts.len() {
        SegBodyOut { toks: acc, pos, missing: true }
    } else {
        let p2 = pos + 1;
        let dent2 = if kind_at(ts, p2, Type::Indent) {
            dent + 1
        } else if kind_at(ts, p2, Type::Dedent) {
            dent - 1
        } else {
            dent
        };
        spec_seg_body(ts, p2, dent2, acc.push(ts[pos]))
    }
}

pub proof fn lemma_seg_body_bounds(ts: Seq<SpecToken>, pos: int, dent: int, acc: Seq<SpecToken>)
    requires
        0 <= pos,
    ensures
        pos <= spec_seg_body(ts, pos, dent, acc).pos,
        pos <= ts.len() ==> spec_seg_body(ts, pos, dent, acc).pos <= ts.len(),
    decreases ts.len() - pos,
{
    if dent <= 0 || pos >= ts.len() {
    } else {
        let p2 = pos + 1;
        let dent2 = if kind_at(ts, p2, Type::Indent) {
            dent + 1
        } else if kind_at(ts, p2, Type::Dedent) {
            dent - 1
        } else {
            dent
        };
        lemma_seg_body_bounds(ts, p2, dent2, acc.push(ts[pos]));
    }
}

/// What compiling one segment yields.
pub ghost struct SegOut {
    pub seg: SpecSegment,
    pub pos: int,
    pub responses: Seq<SpecResponse>,
}

/// One segment, from its `[` at `pos`: the header is consumed, the body
/// must open with an end of line and an indent, and the body's tokens are
/// collected by depth counting until the matching dedent.
pub open spec fn spec_parse_segment(
    ts: Seq<SpecToken>,
    pos: int,
    rule: Seq<char>,
    variant: Option<Seq<char>>,
) -> SegOut {
    let name = ts[pos + 1];
    let p1 = pos + 3;
    let opened = kind_at(ts, p1, Type::EOL) && kind_at(ts, p1 + 1, Type::Indent);
    let p2 = if opened {
        p1 + 2
    } else {
        p1
    };
    let head_resp: Seq<SpecResponse> = if opened {
        Seq::empty()
    } else {
        seq![grammar_error(name, "empty segment: "@)]
    };
    let body = spec_seg_body(ts, p2, 1, Seq::empty());
    let tail_resp: Seq<SpecResponse> = if body.missing {
        seq![grammar_error(name, "missing token: "@)]
    } else {
        Seq::empty()
    };
    SegOut {
        seg: SpecSegment { name, rule, variant, tokens: body.toks },
        pos: step_pos(ts, body.pos),
        responses: head_resp + tail_resp,
    }
}

pub proof fn lemma_parse_segment_bounds(
    ts: Seq<SpecToken>,
    pos: int,
    rule: Seq<char>,
    variant: Option<Seq<char>>,
)
    requires
        0 <= pos,
        pos + 4 <= ts.len(),
    ensures
        pos + 3 <= spec_parse_segment(ts, pos, rule, variant).pos <= ts.len(),
{
    let p1 = pos + 3;
    let opened = kind_at(ts, p1, Type::EOL) && kind_at(ts, p1 + 1, Type::Indent);
    let p2 = if opened {
        p1 + 2
    } else {
        p1
    };
    lemma_seg_body_bounds(ts, p2, 1, Seq::empty());
}

/// What collecting one variant's inline pattern yields: the pattern
/// tokens, the capture points, the position reached, and whether the
/// collection ended early on an error.
pub ghost struct VarBodyOut {
    pub pat: Seq<SpecToken>,
    pub aliases: Seq<SpecAlias>,
    pub responses: Seq<SpecResponse>,
    pub pos: int,
}

/// The pattern tokens of a variant, one per step until the end of the
/// line: an alias prelude (`name :`) records a capture at the position the
/// next element will take; a fully upper-case element under a capture must
/// name a token kind.
pub open spec fn spec_var_body(
    ts: Seq<SpecToken>,
    pos: int,
    name: SpecToken,
    pat: Seq<SpecToken>,
    aliases: Seq<SpecAlias>,
    responses: Seq<SpecResponse>,
) -> VarBodyOut
    decreases ts.len() - pos,
    when 0 <= pos
{
    if kind_at(ts, pos, Type::EOL) {
        VarBodyOut { pat, aliases, responses, pos: pos + 1 }
    } else if hdr_alias(ts, pos) {
        let alias_name = ts[pos];
        let p2 = pos + 2;
        if !kind_at(ts, p2, Type::Word) {
            VarBodyOut {
                pat,
                aliases,
                responses: responses.push(grammar_error(name, "can't alias non-word: "@)),
                pos: p2,
            }
        } else {
            let elem = lexeme_of(ts[p2]);
            if spec_is_uppercase(elem) && spec_type_from_str(upper_of(elem)) is None {
                VarBodyOut {
                    pat,
                    aliases,
                    responses: responses.push(grammar_error(name, "undefined type: "@)),
                    pos: p2,
                }
            } else {
                spec_var_body(
                    ts,
                    p2 + 1,
                    name,
                    pat.push(ts[p2]),
                    aliases.push(SpecAlias { name: alias_name, token: pat.len() as int }),
                    responses,
                )
            }
        }
    } else if pos >= ts.len() {
        VarBodyOut {
            pat,
            aliases,
            responses: responses.push(grammar_error(name, "missing token: "@)),
            pos,
        }
    } else {
        spec_var_body(ts, pos + 1, name, pat.push(ts[pos]), aliases, responses)
    }
}

pub proof fn lemma_var_body_bounds(
    ts: Seq<SpecToken>,
    pos: int,
    name: SpecToken,
    pat: Seq<SpecToken>,
    aliases: Seq<SpecAlias>,
    responses: Seq<SpecResponse>,
)
    requires
        0 <= pos,
    ensures
        pos <= spec_var_body(ts, pos, name, pat, aliases, responses).pos,
        pos <= ts.len() ==> spec_var_body(ts, pos, name, pat, aliases, responses).pos <= ts.len(),
    decreases ts.len() - pos,
{
    if kind_at(ts, pos, Type::EOL) {
    } else if hdr_alias(ts, pos) {
        let p2 = pos + 2;
        if !kind_at(ts, p2, Type::Word) {
        } else {
            let elem = lexeme_of(ts[p2]);
            if spec_is_uppercase(elem) && spec_type_from_str(upper_of(elem)) is None {
            } else {
                lemma_var_body_bounds(
                    ts,
                    p2 + 1,
                    name,
                    pat.push(ts[p2]),
                    aliases.push(SpecAlias { name: ts[pos], token: pat.len() as int }),
                    responses,
                );
            }
        }
    } else if pos >= ts.len() {
    } else {
        lemma_var_body_bounds(ts, pos + 1, name, pat.push(ts[pos]), aliases, responses);
    }
}

/// What collecting a variant's nested segments yields.
pub ghost struct VarSegsOut {
    pub segs: Seq<SpecSegment>,
    pub responses: Seq<SpecResponse>,
    pub pos: int,
}

/// The nested segment blocks after a variant's pattern, each of the shape
/// `[name]` on its own line, until the closing dedent.
pub open spec fn spec_var_segs(
    ts: Seq<SpecToken>,
    pos: int,
    name: SpecToken,
    rule: Seq<char>,
    vname: Seq<char>,
    segs: Seq<SpecSegment>,
    responses: Seq<SpecResponse>,
) -> VarSegsOut
    decreases ts.len() - pos,
    when 0 <= pos
    via spec_var_segs_decreases
{
    if hdr_seg_variant(ts, pos) {
        let so = spec_parse_segment(ts, pos, rule, Option::Some(vname));
        spec_var_segs(ts, so.pos, name, rule, vname, segs.push(so.seg), responses + so.responses)
    } else if kind_at(ts, pos, Type::Dedent) {
        VarSegsOut { segs, responses, pos: pos + 1 }
    } else if pos >= ts.len() {
        VarSegsOut {
            segs,
            responses: responses.push(grammar_error(name, "missing token: "@)),
            pos,
        }
    } else {
        spec_var_segs(ts, pos + 1, name, rule, vname, segs, responses)
    }
}

#[via_fn]
proof fn spec_var_segs_decreases(
    ts: Seq<SpecToken>,
    pos: int,
    name: SpecToken,
    rule: Seq<char>,
    vname: Seq<char>,
    segs: Seq<SpecSegment>,
    responses: Seq<SpecResponse>,
) {
    if hdr_seg_variant(ts, pos) {
        lemma_parse_segment_bounds(ts, pos, rule, Option::Some(vname));
    }
}

pub proof fn lemma_var_segs_bounds(
    ts: Seq<SpecToken>,
    pos: int,
    name: SpecToken,
    rule: Seq<char>,
    vname: Seq<char>,
    segs: Seq<SpecSegment>,
    responses: Seq<SpecResponse>,
)
    requires
        0 <= pos,
        pos <= ts.len(),
    ensures
        pos <= spec_var_segs(ts, pos, name, rule, vname, segs, responses).pos <= ts.len(),
    decreases ts.len() - pos,
{
    if hdr_seg_variant(ts, pos) {
        let so = spec_parse_segment(ts, pos, rule, Option::Some(vname));
        lemma_parse_segment_bounds(ts, pos, rule, Option::Some(vname));
        lemma_var_segs_bounds(ts, so.pos, name, rule, vname, segs.push(so.seg), responses + so.responses);
    } else if kind_at(ts, pos, Type::Dedent) {
    } else if pos >= ts.len() {
    } else {
        lemma_var_segs_bounds(ts, pos + 1, name, rule, vname, segs, responses);
    }
}

/// What compiling one variant yields.
pub ghost struct VarOut {
    pub var: SpecVariant,
    pub pos: int,
    pub responses: Seq<SpecResponse>,
}

/// One variant, from its name at `pos`: the `name := ` header is consumed,
/// the inline pattern runs to the end of the line (an empty pattern is an
/// error), and an optional indented block of segments follows.
pub open spec fn spec_parse_variant(ts: Seq<SpecToken>, pos: int, rule: Seq<char>) -> VarOut {
    let name = ts[pos];
    let p = pos + 3;
    let empty_pat = kind_at(ts, p, Type::EOL);
    let p1 = if empty_pat {
        p + 1
    } else {
        p
    };
    let head_resp: Seq<SpecResponse> = if empty_pat {
        seq![grammar_error(name, "variant has no pattern: "@)]
    } else {
        Seq::empty()
    };
    let body = spec_var_body(ts, p1, name, Seq::empty(), Seq::empty(), head_resp);
    let with_segs = kind_at(ts, body.pos, Type::Indent);
    if with_segs {
        let so = spec_var_segs(
            ts,
            body.pos + 1,
            name,
            rule,
            lexeme_of(name),
            Seq::empty(),
            body.responses,
        );
        VarOut {
            var: SpecVariant {
                name,
                rule,
                tokens: body.pat,
                segments: so.segs,
                aliases: body.aliases,
            },
            pos: so.pos,
            responses: so.responses,
        }
    } else {
        VarOut {
            var: SpecVariant {
                name,
                rule,
                tokens: body.pat,
                segments: Seq::empty(),
                aliases: body.aliases,
            },
            pos: body.pos,
            responses: body.responses,
        }
    }
}

pub proof fn lemma_parse_variant_bounds(ts: Seq<SpecToken>, pos: int, rule: Seq<char>)
    requires
        0 <= pos,
        pos + 3 <= ts.len(),
    ensures
        pos + 3 <= spec_parse_variant(ts, pos, rule).pos <= ts.len(),
{
    let name = ts[pos];
    let p = pos + 3;
    let empty_pat = kind_at(ts, p, Type::EOL);
    let p1 = if empty_pat {
        p + 1
    } else {
        p
    };
    let head_resp: Seq<SpecResponse> = if empty_pat {
        seq![grammar_error(name, "variant has no pattern: "@)]
    } else {
        Seq::empty()
    };
    lemma_var_body_bounds(ts, p1, name, Seq::empty(), Seq::empty(), head_resp);
    let body = spec_var_body(ts, p1, name, Seq::empty(), Seq::empty(), head_resp);
    if kind_at(ts, body.pos, Type::Indent) {
        lemma_var_segs_bounds(
            ts,
            body.pos + 1,
            name,
            rule,
            lexeme_of(name),
            Seq::empty(),
            body.responses,
        );
    }
}


/// What scanning one rule's body yields.
pub ghost struct RuleBodyOut {
    pub variants: Seq<SpecVariant>,
    pub segments: Seq<SpecSegment>,
    pub responses: Seq<SpecResponse>,
    pub pos: int,
}

/// A rule's body, scanned until the matching dedent: a `name := ` line
/// opens a variant, a `[name]` line opens a segment, and a failure in
/// either records the failure and abandons the rest of the body.
pub open spec fn spec_rule_body(
    ts: Seq<SpecToken>,
    pos: int,
    name: SpecToken,
    rule: Seq<char>,
    variants: Seq<SpecVariant>,
    segments: Seq<SpecSegment>,
    responses: Seq<SpecResponse>,
) -> RuleBodyOut
    decreases ts.len() - pos,
    when 0 <= pos
    via spec_rule_body_decreases
{
    if kind_at(ts, pos, Type::Dedent) {
        RuleBodyOut { variants, segments, responses, pos: pos + 1 }
    } else if hdr_variant(ts, pos) {
        let vo = spec_parse_variant(ts, pos, rule);
        if crate::error::spec_has_error(vo.responses) {
            RuleBodyOut {
                variants,
                segments,
                responses: responses + vo.responses + seq![
                    SpecResponse::Error(Option::None, "failed variant"@),
                ],
                pos: vo.pos,
            }
        } else {
            spec_rule_body(
                ts,
                vo.pos,
                name,
                rule,
                variants.push(vo.var),
                segments,
                responses + vo.responses,
            )
        }
    } else if hdr_seg_rule(ts, pos) {
        let so = spec_parse_segment(ts, pos, rule, Option::None);
        if crate::error::spec_has_error(so.responses) {
            RuleBodyOut {
                variants,
                segments,
                responses: responses + so.responses + seq![
                    SpecResponse::Error(Option::None, "failed segment"@),
                ],
                pos: so.pos,
            }
        } else {
            spec_rule_body(
                ts,
                so.pos,
                name,
                rule,
                variants,
                segments.push(so.seg),
                responses + so.responses,
            )
        }
    } else if pos >= ts.len() {
        RuleBodyOut {
            variants,
            segments,
            responses: responses.push(grammar_error(name, "missing token: "@)),
            pos,
        }
    } else {
        spec_rule_body(ts, pos + 1, name, rule, variants, segments, responses)
    }
}

#[via_fn]
proof fn spec_rule_body_decreases(
    ts: Seq<SpecToken>,
    pos: int,
    name: SpecToken,
    rule: Seq<char>,
    variants: Seq<SpecVariant>,
    segments: Seq<SpecSegment>,
    responses: Seq<SpecResponse>,
) {
    if kind_at(ts, pos, Type::Dedent) {
    } else if hdr_variant(ts, pos) {
        lemma_parse_variant_bounds(ts, pos, rule);
    } else if hdr_seg_rule(ts, pos) {
        lemma_parse_segment_bounds(ts, pos, rule, Option::None);
    }
}

pub proof fn lemma_rule_body_bounds(
    ts: Seq<SpecToken>,
    pos: int,
    name: SpecToken,
    rule: Seq<char>,
    variants: Seq<SpecVariant>,
    segments: Seq<SpecSegment>,
    responses: Seq<SpecResponse>,
)
    requires
        0 <= pos <= ts.len(),
    ensures
        pos <= spec_rule_body(ts, pos, name, rule, variants, segments, responses).pos <= ts.len(),
    decreases ts.len() - pos,
{
    if kind_at(ts, pos, Type::Dedent) {
    } else if hdr_variant(ts, pos) {
        lemma_parse_variant_bounds(ts, pos, rule);
        let vo = spec_parse_variant(ts, pos, rule);
        if !crate::error::spec_has_error(vo.responses) {
            lemma_rule_body_bounds(
                ts,
                vo.pos,
                name,
                rule,
                variants.push(vo.var),
                segments,
                responses + vo.responses,
            );
        }
    } else if hdr_seg_rule(ts, pos) {
        lemma_parse_segment_bounds(ts, pos, rule, Option::None);
        let so = spec_parse_segment(ts, pos, rule, Option::None);
        if !crate::error::spec_has_error(so.responses) {
            lemma_rule_body_bounds(
                ts,
                so.pos,
                name,
                rule,
                variants,
                segments.push(so.seg),
                responses + so.responses,
            );
        }
    } else if pos >= ts.len() {
    } else {
        lemma_rule_body_bounds(ts, pos + 1, name, rule, variants, segments, responses);
    }
}

/// What compiling one rule yields.
pub ghost struct RuleOut {
    pub rule: SpecRule,
    pub pos: int,
    pub responses: Seq<SpecResponse>,
}

/// One rule, from its header at `pos`: the `name :`-or-`!` header line is
/// consumed, the body must open with an indent (an empty rule is an
/// error), and the body is scanned for variants and segments.
pub open spec fn spec_parse_rule(ts: Seq<SpecToken>, pos: int) -> RuleOut {
    let name = ts[pos];
    let is_matching = kind_at(ts, pos + 1, Type::Symbol) && lex_at(ts, pos + 1, ":"@);
    let p = pos + 3;
    if kind_at(ts, p, Type::Indent) {
        let body = spec_rule_body(
            ts,
            p + 1,
            name,
            lexeme_of(name),
            Seq::empty(),
            Seq::empty(),
            Seq::empty(),
        );
        RuleOut {
            rule: SpecRule { name, is_matching, variants: body.variants, segments: body.segments },
            pos: body.pos,
            responses: body.responses,
        }
    } else {
        RuleOut {
            rule: SpecRule {
                name,
                is_matching,
                variants: Seq::empty(),
                segments: Seq::empty(),
            },
            pos: p,
            responses: seq![grammar_error(name, "empty rule: "@)],
        }
    }
}

pub proof fn lemma_parse_rule_bounds(ts: Seq<SpecToken>, pos: int)
    requires
        0 <= pos,
        pos + 3 <= ts.len(),
    ensures
        pos + 3 <= spec_parse_rule(ts, pos).pos <= ts.len(),
{
    let p = pos + 3;
    if kind_at(ts, p, Type::Indent) {
        lemma_rule_body_bounds(
            ts,
            p + 1,
            ts[pos],
            lexeme_of(ts[pos]),
            Seq::empty(),
            Seq::empty(),
            Seq::empty(),
        );
    }
}

/// What compiling the whole grammar yields.
pub ghost struct TplOut {
    pub rules: Seq<SpecRule>,
    pub responses: Seq<SpecResponse>,
    pub pos: int,
}

/// The whole grammar: top-level tokens are scanned for rule headers and
/// anything else is skipped; the first failing rule aborts compilation
/// with its diagnostics and one closing error.
pub open spec fn spec_parse_template(
    ts: Seq<SpecToken>,
    pos: int,
    rules: Seq<SpecRule>,
) -> TplOut
    decreases ts.len() - pos,
    when 0 <= pos
    via spec_parse_template_decreases
{
    if kind_at(ts, pos, Type::EOF) {
        TplOut { rules, responses: Seq::empty(), pos: pos + 1 }
    } else if pos >= ts.len() {
        TplOut { rules, responses: Seq::empty(), pos }
    } else if hdr_rule(ts, pos) {
        let ro = spec_parse_rule(ts, pos);
        if crate::error::spec_has_error(ro.responses) {
            TplOut {
                rules,
                responses: ro.responses + seq![
                    SpecResponse::Error(Option::None, "aborting due to previous errors"@),
                ],
                pos: ro.pos,
            }
        } else {
            spec_parse_template(ts, ro.pos, rules.push(ro.rule))
        }
    } else {
        spec_parse_template(ts, pos + 1, rules)
    }
}

#[via_fn]
proof fn spec_parse_template_decreases(ts: Seq<SpecToken>, pos: int, rules: Seq<SpecRule>) {
    if !kind_at(ts, pos, Type::EOF) && pos < ts.len() && hdr_rule(ts, pos) {
        lemma_parse_rule_bounds(ts, pos);
    }
}

/// The mathematical image of a `Template`.
pub ghost struct SpecTemplate {
    pub source: SpecSource,
    pub rules: Option<Seq<SpecRule>>,
}

/// A compiled grammar: the source it was compiled from and, once `parse`
/// has run, its ordered rules. Immutable after compilation; shared
/// read-only across parsing sessions.
#[derive(Debug)]
pub struct Template {
    pub source: Source,
    pub rules: Option<Vec<Rule>>,
}

impl View for Template {
    type V = SpecTemplate;

    open spec fn view(&self) -> SpecTemplate {
        SpecTemplate {
            source: self.source@,
            rules: match self.rules {
                Option::Some(rs) => Option::Some(rs.deep_view()),
                Option::None => Option::None,
            },
        }
    }
}

/// The first rule of `rs` (from index `k` on) whose name's lexeme is
/// `name`, as an index.
pub open spec fn spec_find_rule_from(rs: Seq<SpecRule>, name: Seq<char>, k: int) -> Option<int>
    decreases rs.len() - k,
{
    if k < 0 || k >= rs.len() {
        Option::None
    } else if rs[k].name.lexeme == Option::Some(name) {
        Option::Some(k)
    } else {
        spec_find_rule_from(rs, name, k + 1)
    }
}

pub open spec fn spec_find_rule(rs: Seq<SpecRule>, name: Seq<char>) -> Option<int> {
    spec_find_rule_from(rs, name, 0)
}

/// The first rule whose name token's lexeme equals `lex` outright — the
/// lookup the matcher makes for a rule reference, where a pattern element
/// without a lexeme seeks a rule without one.
pub open spec fn spec_find_rule_lex_from(
    rs: Seq<SpecRule>,
    lex: Option<Seq<char>>,
    k: int,
) -> Option<int>
    decreases rs.len() - k,
{
    if k < 0 || k >= rs.len() {
        Option::None
    } else if rs[k].name.lexeme == lex {
        Option::Some(k)
    } else {
        spec_find_rule_lex_from(rs, lex, k + 1)
    }
}

pub open spec fn spec_find_rule_lex(rs: Seq<SpecRule>, lex: Option<Seq<char>>) -> Option<int> {
    spec_find_rule_lex_from(rs, lex, 0)
}

impl Template {
    /// A grammar not yet compiled, owning its tokenized source.
    pub fn new(source: Source) -> (t: Template)
        ensures
            t@.source == source@,
            t@.rules is None,
    {
        Template { source, rules: Option::None }
    }

    /// The first rule carrying the given name, if any.
    pub fn find_rule(&self, name: &str) -> (r: Option<&Rule>)
        requires
            self@.rules is Some,
        ensures
            ({
                let rs = self@.rules->0;
                match r {
                    Option::Some(rule) => {
                        let j = spec_find_rule(rs, name@)->0;
                        &&& spec_find_rule(rs, name@) is Some
                        &&& 0 <= j < rs.len()
                        &&& rule@ == rs[j]
                    },
                    Option::None => spec_find_rule(rs, name@) is None,
                }
            }),
    {
        let rules = match &self.rules {
            Option::Some(rs) => rs,
            Option::None => {
                proof {
                    assert(false);
                }
                vstd::pervasive::unreached()
            },
        };
        let ghost rsv = self@.rules->0;
        let n = rules.len();
        let mut k: usize = 0;
        while k < n
            invariant
                self.rules == Option::Some(*rules),
                rsv == self@.rules->0,
                n == rules@.len(),
                rsv.len() == n,
                0 <= k <= n,
                spec_find_rule(rsv, name@) == spec_find_rule_from(rsv, name@, k as int),
            decreases n - k,
        {
            proof {
                assert(rsv[k as int] == rules@[k as int]@);
            }
            let has = match &rules[k].name.lexeme {
                Option::Some(s) => crate::extras::str_eq(s.as_str(), name),
                Option::None => false,
            };
            if has {
                return Option::Some(&rules[k]);
            }
            k = k + 1;
        }
        Option::None
    }
}


// ---------------------------------------------------------------------------
// Executable compiling.
// ---------------------------------------------------------------------------

/// Whether the token `off` places past the cursor is of the given kind.
fn at_kind(it: &TokenIterator, off: usize, k: Type) -> (r: bool)
    ensures
        r == kind_at(it.tokens.deep_view(), it.current + off, k),
{
    match it.get(off) {
        Option::Some(t) => {
            proof {
                assert(it.tokens.deep_view()[it.current + off] == it.tokens@[it.current + off]@);
            }
            t.token_type == k
        },
        Option::None => false,
    }
}

/// Whether the token `off` places past the cursor carries the lexeme `x`.
fn at_lex(it: &TokenIterator, off: usize, x: &str) -> (r: bool)
    ensures
        r == lex_at(it.tokens.deep_view(), it.current + off, x@),
{
    match it.get(off) {
        Option::Some(t) => {
            proof {
                assert(it.tokens.deep_view()[it.current + off] == it.tokens@[it.current + off]@);
            }
            match &t.lexeme {
                Option::Some(s) => crate::extras::str_eq(s.as_str(), x),
                Option::None => false,
            }
        },
        Option::None => false,
    }
}

fn at_hdr_rule(it: &TokenIterator) -> (r: bool)
    ensures
        r == hdr_rule(it.tokens.deep_view(), it.current as int),
{
    at_kind(it, 0, Type::Word) && at_kind(it, 1, Type::Symbol) && (at_lex(it, 1, ":") || at_lex(
        it,
        1,
        "!",
    )) && at_kind(it, 2, Type::EOL)
}

fn at_hdr_variant(it: &TokenIterator) -> (r: bool)
    ensures
        r == hdr_variant(it.tokens.deep_view(), it.current as int),
{
    at_kind(it, 0, Type::Word) && at_lex(it, 1, ":") && at_lex(it, 2, "=")
}

fn at_hdr_seg_rule(it: &TokenIterator) -> (r: bool)
    ensures
        r == hdr_seg_rule(it.tokens.deep_view(), it.current as int),
{
    at_lex(it, 0, "[") && at_kind(it, 1, Type::Word) && at_lex(it, 2, "]") && at_kind(
        it,
        3,
        Type::EOL,
    )
}

fn at_hdr_seg_variant(it: &TokenIterator) -> (r: bool)
    ensures
        r == hdr_seg_variant(it.tokens.deep_view(), it.current as int),
{
    at_kind(it, 0, Type::Symbol) && at_lex(it, 0, "[") && at_kind(it, 1, Type::Word) && at_kind(
        it,
        2,
        Type::Symbol,
    ) && at_lex(it, 2, "]") && at_kind(it, 3, Type::EOL)
}

fn at_hdr_alias(it: &TokenIterator) -> (r: bool)
    ensures
        r == hdr_alias(it.tokens.deep_view(), it.current as int),
{
    at_kind(it, 0, Type::Word) && at_kind(it, 1, Type::Symbol) && at_lex(it, 1, ":")
}

/// Record one grammar-compile error, underlining the offending name.
fn push_grammar_error(responses: &mut Vec<Response>, name: &Token, what: &str)
    ensures
        final(responses).deep_view() == old(responses).deep_view().push(
            grammar_error(name@, what@),
        ),
{
    let mut msg = String::new();
    msg.append(what);
    msg.append(crate::rule::lexeme_str(name));
    proof {
        assert(msg@ =~= what@ + lexeme_of(name@));
    }
    responses.push(
        Response::Error(
            Option::Some(
                PartialToken::Pos { line: name.line, slice: (name.slice.0, name.slice.1) },
            ),
            msg,
        ),
    );
    proof {
        assert(responses.deep_view() =~= old(responses).deep_view().push(
            grammar_error(name@, what@),
        ));
    }
}

impl Template {
    /// One segment, from its `[` under the cursor.
    #[verifier::rlimit(60)]
    #[verifier::loop_isolation(false)]
    fn parse_segment(
        &self,
        iter: &mut TokenIterator,
        rule: &str,
        variant: Option<&str>,
    ) -> (out: Outcome<Segment>)
        requires
            old(iter).current + 4 <= old(iter).tokens@.len(),
        ensures
            final(iter).tokens == old(iter).tokens,
            ({
                let so = spec_parse_segment(
                    old(iter).tokens.deep_view(),
                    old(iter).current as int,
                    rule@,
                    crate::tokenizer::view_ctrl(variant),
                );
                &&& out.value@ == so.seg
                &&& final(iter).current as int == so.pos
                &&& crate::error::spec_responses(out) == so.responses
                &&& (out.response is None <==> so.responses.len() == 0)
            }),
    {
        let ghost ts = iter.tokens.deep_view();
        let ghost pos0 = iter.current as int;
        let ghost so = spec_parse_segment(ts, pos0, rule@, crate::tokenizer::view_ctrl(variant));
        let name = match iter.get(1) {
            Option::Some(t) => t.clone(),
            Option::None => {
                proof {
                    assert(false);
                }
                vstd::pervasive::unreached()
            },
        };
        proof {
            assert(name@ == ts[pos0 + 1]);
        }
        iter.eat(3);
        let mut responses: Vec<Response> = Vec::new();
        proof {
            assert(responses.deep_view() =~= Seq::<SpecResponse>::empty());
        }
        let opened = at_kind(iter, 0, Type::EOL) && at_kind(iter, 1, Type::Indent);
        if opened {
            iter.eat(2);
        } else {
            push_grammar_error(&mut responses, &name, "empty segment: ");
        }
        let ghost p2 = iter.current as int;
        let ghost body_target = spec_seg_body(ts, p2, 1, Seq::empty());
        let ghost head0 = responses.deep_view();
        let mut toks: Vec<Token> = Vec::new();
        proof {
            assert(toks.deep_view() =~= Seq::<SpecToken>::empty());
        }
        let mut dent: u128 = 1;
        let mut stopped = false;
        while dent > 0 && !stopped
            invariant
                iter.tokens == old(iter).tokens,
                p2 <= iter.current as int,
                iter.current as int <= ts.len(),
                dent <= 1 + (iter.current as int - p2),
                !stopped ==> responses.deep_view() == head0,
                stopped ==> responses.deep_view() == head0.push(
                    grammar_error(name@, "missing token: "@),
                ),
                !stopped ==> spec_seg_body(ts, iter.current as int, dent as int, toks.deep_view())
                    == body_target,
                stopped ==> body_target == (SegBodyOut {
                    toks: toks.deep_view(),
                    pos: iter.current as int,
                    missing: true,
                }),
            decreases ts.len() - iter.current, (if stopped { 0int } else { 1int }),
        {
            let ghost cur0 = iter.current as int;
            let ghost toks0 = toks.deep_view();
            match iter.next() {
                Option::Some(t) => {
                    proof {
                        assert(t@ == ts[cur0]);
                    }
                    toks.push(t.clone());
                    proof {
                        assert(toks.deep_view() =~= toks0.push(ts[cur0]));
                    }
                    let di = at_kind(iter, 0, Type::Indent);
                    let dd = at_kind(iter, 0, Type::Dedent);
                    if di {
                        dent = dent + 1;
                    } else if dd {
                        dent = dent - 1;
                    }
                },
                Option::None => {
                    push_grammar_error(&mut responses, &name, "missing token: ");
                    stopped = true;
                },
            }
        }
        proof {
            assert(body_target.toks == toks.deep_view());
            assert(body_target.pos == iter.current as int);
            assert(body_target.missing == stopped);
        }
        iter.next();
        let rule_owned = rule.to_owned();
        let variant_owned = match variant {
            Option::Some(v) => Option::Some(v.to_owned()),
            Option::None => Option::None,
        };
        let seg = Segment::new(name, rule_owned, variant_owned, toks);
        proof {
            assert(seg@ == so.seg);
            assert(responses.deep_view() =~= so.responses);
        }
        let n_res = responses.len();
        if n_res > 0 {
            let out = Outcome::new(seg, Option::Some(responses));
            proof {
                assert(crate::error::spec_responses(out) == so.responses);
            }
            out
        } else {
            let out = Outcome::new(seg, Option::None);
            proof {
                assert(crate::error::spec_responses(out) =~= so.responses);
            }
            out
        }
    }

    /// One variant, from its name under the cursor: the `name := ` header,
    /// the inline pattern to the end of the line, and an optional indented
    /// block of nested segments.
    #[verifier::rlimit(60)]
    #[verifier::loop_isolation(false)]
    fn parse_variant(&self, iter: &mut TokenIterator, rule: &str) -> (out: Outcome<Variant>)
        requires
            old(iter).current + 3 <= old(iter).tokens@.len(),
        ensures
            final(iter).tokens == old(iter).tokens,
            ({
                let vo = spec_parse_variant(
                    old(iter).tokens.deep_view(),
                    old(iter).current as int,
                    rule@,
                );
                &&& out.value@ == vo.var
                &&& final(iter).current as int == vo.pos
                &&& crate::error::spec_responses(out) == vo.responses
                &&& (out.response is None <==> vo.responses.len() == 0)
            }),
    {
        let ghost ts = iter.tokens.deep_view();
        let ghost pos0 = iter.current as int;
        let ghost vo = spec_parse_variant(ts, pos0, rule@);
        let n = iter.tokens.len();
        let name = match iter.get(0) {
            Option::Some(t) => t.clone(),
            Option::None => {
                proof {
                    assert(false);
                }
                vstd::pervasive::unreached()
            },
        };
        proof {
            assert(name@ == ts[pos0]);
        }
        iter.eat(3);
        let mut responses: Vec<Response> = Vec::new();
        proof {
            assert(responses.deep_view() =~= Seq::<SpecResponse>::empty());
        }
        if at_kind(iter, 0, Type::EOL) {
            iter.eat(1);
            push_grammar_error(&mut responses, &name, "variant has no pattern: ");
        }
        let ghost p1 = iter.current as int;
        let ghost body_target = spec_var_body(
            ts,
            p1,
            name@,
            Seq::empty(),
            Seq::empty(),
            responses.deep_view(),
        );
        let mut pat: Vec<Token> = Vec::new();
        let mut aliases: Vec<Alias> = Vec::new();
        proof {
            assert(pat.deep_view() =~= Seq::<SpecToken>::empty());
            assert(aliases.deep_view() =~= Seq::<SpecAlias>::empty());
        }
        let mut fin = false;
        while !fin
            invariant
                iter.tokens == old(iter).tokens,
                0 <= iter.current as int <= ts.len(),
                !fin ==> spec_var_body(
                    ts,
                    iter.current as int,
                    name@,
                    pat.deep_view(),
                    aliases.deep_view(),
                    responses.deep_view(),
                ) == body_target,
                fin ==> body_target == (VarBodyOut {
                    pat: pat.deep_view(),
                    aliases: aliases.deep_view(),
                    responses: responses.deep_view(),
                    pos: iter.current as int,
                }),
            decreases ts.len() - iter.current, (if fin { 0int } else { 1int }),
        {
            let ghost cur0 = iter.current as int;
            let ghost pat0 = pat.deep_view();
            let ghost ali0 = aliases.deep_view();
            if at_kind(iter, 0, Type::EOL) {
                iter.eat(1);
                fin = true;
            } else if at_hdr_alias(iter) {
                let alias_name = match iter.get(0) {
                    Option::Some(t) => t.clone(),
                    Option::None => {
                        proof {
                            assert(false);
                        }
                        vstd::pervasive::unreached()
                    },
                };
                proof {
                    assert(alias_name@ == ts[cur0]);
                }
                iter.eat(2);
                if !at_kind(iter, 0, Type::Word) {
                    push_grammar_error(&mut responses, &name, "can't alias non-word: ");
                    fin = true;
                } else {
                    let elem = match iter.get(0) {
                        Option::Some(t) => t,
                        Option::None => {
                            proof {
                                assert(false);
                            }
                            vstd::pervasive::unreached()
                        },
                    };
                    proof {
                        assert(elem@ == ts[cur0 + 2]);
                    }
                    let lx = crate::rule::lexeme_str(elem);
                    let undefined = crate::extras::str_is_uppercase(lx) && match Type::from_str(
                        lx,
                    ) {
                        Option::Some(_) => false,
                        Option::None => true,
                    };
                    if undefined {
                        push_grammar_error(&mut responses, &name, "undefined type: ");
                        fin = true;
                    } else {
                        aliases.push(Alias::new(alias_name, pat.len()));
                        let elem_owned = elem.clone();
                        pat.push(elem_owned);
                        iter.eat(1);
                        proof {
                            assert(aliases.deep_view() =~= ali0.push(
                                SpecAlias { name: ts[cur0], token: pat0.len() as int },
                            ));
                            assert(pat.deep_view() =~= pat0.push(ts[cur0 + 2]));
                        }
                    }
                }
            } else {
                match iter.next() {
                    Option::Some(t) => {
                        proof {
                            assert(t@ == ts[cur0]);
                        }
                        pat.push(t.clone());
                        proof {
                            assert(pat.deep_view() =~= pat0.push(ts[cur0]));
                        }
                    },
                    Option::None => {
                        push_grammar_error(&mut responses, &name, "missing token: ");
                        fin = true;
                    },
                }
            }
        }
        proof {
            assert(body_target.pat == pat.deep_view());
            assert(body_target.aliases == aliases.deep_view());
            assert(body_target.responses == responses.deep_view());
            assert(body_target.pos == iter.current as int);
        }

        let mut segments: Vec<Segment> = Vec::new();
        proof {
            assert(segments.deep_view() =~= Seq::<SpecSegment>::empty());
        }
        if at_kind(iter, 0, Type::Indent) {
            iter.eat(1);
            let ghost ps = iter.current as int;
            let ghost segs_target = spec_var_segs(
                ts,
                ps,
                name@,
                rule@,
                lexeme_of(name@),
                Seq::empty(),
                responses.deep_view(),
            );
            let mut fin2 = false;
            while !fin2
                invariant
                    iter.tokens == old(iter).tokens,
                    0 <= iter.current as int <= ts.len(),
                    !fin2 ==> spec_var_segs(
                        ts,
                        iter.current as int,
                        name@,
                        rule@,
                        lexeme_of(name@),
                        segments.deep_view(),
                        responses.deep_view(),
                    ) == segs_target,
                    fin2 ==> segs_target == (VarSegsOut {
                        segs: segments.deep_view(),
                        responses: responses.deep_view(),
                        pos: iter.current as int,
                    }),
                decreases ts.len() - iter.current, (if fin2 { 0int } else { 1int }),
            {
                let ghost cur0 = iter.current as int;
                let ghost segs0 = segments.deep_view();
                let ghost resp0 = responses.deep_view();
                if at_hdr_seg_variant(iter) {
                    proof {
                        lemma_parse_segment_bounds(
                            ts,
                            cur0,
                            rule@,
                            Option::Some(lexeme_of(name@)),
                        );
                    }
                    let vname = crate::rule::lexeme_str(&name);
                    let o = self.parse_segment(iter, rule, Option::Some(vname));
                    let seg_value = o.value;
                    match o.response {
                        Option::Some(mut v) => {
                            responses.append(&mut v);
                        },
                        Option::None => {},
                    }
                    segments.push(seg_value);
                    proof {
                        let so = spec_parse_segment(ts, cur0, rule@, Option::Some(lexeme_of(name@)));
                        assert(segments.deep_view() =~= segs0.push(so.seg));
                        assert(responses.deep_view() =~= resp0 + so.responses);
                    }
                } else if at_kind(iter, 0, Type::Dedent) {
                    iter.eat(1);
                    fin2 = true;
                } else {
                    match iter.next() {
                        Option::Some(_) => {},
                        Option::None => {
                            push_grammar_error(&mut responses, &name, "missing token: ");
                            fin2 = true;
                        },
                    }
                }
            }
            proof {
                assert(segs_target.segs == segments.deep_view());
                assert(segs_target.responses == responses.deep_view());
                assert(segs_target.pos == iter.current as int);
            }
        }

        let var = Variant::new(name, rule.to_owned(), pat, segments, aliases);
        proof {
            assert(var@ == vo.var);
            assert(responses.deep_view() == vo.responses);
        }
        let n_res = responses.len();
        if n_res > 0 {
            let out = Outcome::new(var, Option::Some(responses));
            proof {
                assert(crate::error::spec_responses(out) == vo.responses);
            }
            out
        } else {
            let out = Outcome::new(var, Option::None);
            proof {
                assert(crate::error::spec_responses(out) =~= vo.responses);
            }
            out
        }
    }

    /// One rule, from its header under the cursor: the header line, then an
    /// indented body of variants and segments until the matching dedent.
    #[verifier::rlimit(60)]
    #[verifier::loop_isolation(false)]
    fn parse_rule(&self, iter: &mut TokenIterator) -> (out: Outcome<Rule>)
        requires
            hdr_rule(old(iter).tokens.deep_view(), old(iter).current as int),
        ensures
            final(iter).tokens == old(iter).tokens,
            ({
                let ro = spec_parse_rule(old(iter).tokens.deep_view(), old(iter).current as int);
                &&& out.value@ == ro.rule
                &&& final(iter).current as int == ro.pos
                &&& crate::error::spec_responses(out) == ro.responses
                &&& (out.response is None <==> ro.responses.len() == 0)
            }),
    {
        let ghost ts = iter.tokens.deep_view();
        let ghost pos0 = iter.current as int;
        let ghost ro = spec_parse_rule(ts, pos0);
        let name = match iter.get(0) {
            Option::Some(t) => t.clone(),
            Option::None => {
                proof {
                    assert(false);
                }
                vstd::pervasive::unreached()
            },
        };
        proof {
            assert(name@ == ts[pos0]);
        }
        let is_matching = at_kind(iter, 1, Type::Symbol) && at_lex(iter, 1, ":");
        iter.eat(3);
        let mut responses: Vec<Response> = Vec::new();
        let mut variants: Vec<Variant> = Vec::new();
        let mut segments: Vec<Segment> = Vec::new();
        proof {
            assert(responses.deep_view() =~= Seq::<SpecResponse>::empty());
            assert(variants.deep_view() =~= Seq::<SpecVariant>::empty());
            assert(segments.deep_view() =~= Seq::<SpecSegment>::empty());
        }
        if at_kind(iter, 0, Type::Indent) {
            iter.eat(1);
            let ghost pb = iter.current as int;
            let ghost body_target = spec_rule_body(
                ts,
                pb,
                name@,
                lexeme_of(name@),
                Seq::empty(),
                Seq::empty(),
                Seq::empty(),
            );
            let mut fin = false;
            while !fin
                invariant
                    iter.tokens == old(iter).tokens,
                    0 <= iter.current as int <= ts.len(),
                    !fin ==> spec_rule_body(
                        ts,
                        iter.current as int,
                        name@,
                        lexeme_of(name@),
                        variants.deep_view(),
                        segments.deep_view(),
                        responses.deep_view(),
                    ) == body_target,
                    fin ==> body_target == (RuleBodyOut {
                        variants: variants.deep_view(),
                        segments: segments.deep_view(),
                        responses: responses.deep_view(),
                        pos: iter.current as int,
                    }),
                decreases ts.len() - iter.current, (if fin { 0int } else { 1int }),
            {
                let ghost cur0 = iter.current as int;
                let ghost vars0 = variants.deep_view();
                let ghost segs0 = segments.deep_view();
                let ghost resp0 = responses.deep_view();
                if at_kind(iter, 0, Type::Dedent) {
                    iter.eat(1);
                    fin = true;
                } else if at_hdr_variant(iter) {
                    proof {
                        lemma_parse_variant_bounds(ts, cur0, lexeme_of(name@));
                    }
                    let rname = crate::rule::lexeme_str(&name);
                    let o = self.parse_variant(iter, rname);
                    let failed = o.is_error();
                    let var_value = o.value;
                    let mut sub = match o.response {
                        Option::Some(v) => v,
                        Option::None => Vec::new(),
                    };
                    proof {
                        let vo = spec_parse_variant(ts, cur0, lexeme_of(name@));
                        assert(sub.deep_view() =~= vo.responses);
                    }
                    if failed {
                        responses.append(&mut sub);
                        responses.push(
                            Response::Error(Option::None, "failed variant".to_owned()),
                        );
                        proof {
                            let vo = spec_parse_variant(ts, cur0, lexeme_of(name@));
                            assert(responses.deep_view() =~= resp0 + vo.responses + seq![
                                SpecResponse::Error(Option::None, "failed variant"@),
                            ]);
                        }
                        fin = true;
                    } else {
                        responses.append(&mut sub);
                        variants.push(var_value);
                        proof {
                            let vo = spec_parse_variant(ts, cur0, lexeme_of(name@));
                            assert(variants.deep_view() =~= vars0.push(vo.var));
                            assert(responses.deep_view() =~= resp0 + vo.responses);
                        }
                    }
                } else if at_hdr_seg_rule(iter) {
                    proof {
                        lemma_parse_segment_bounds(ts, cur0, lexeme_of(name@), Option::None);
                    }
                    let rname = crate::rule::lexeme_str(&name);
                    let o = self.parse_segment(iter, rname, Option::None);
                    let failed = o.is_error();
                    let seg_value = o.value;
                    let mut sub = match o.response {
                        Option::Some(v) => v,
                        Option::None => Vec::new(),
                    };
                    proof {
                        let so = spec_parse_segment(ts, cur0, lexeme_of(name@), Option::None);
                        assert(sub.deep_view() =~= so.responses);
                    }
                    if failed {
                        responses.append(&mut sub);
                        responses.push(
                            Response::Error(Option::None, "failed segment".to_owned()),
                        );
                        proof {
                            let so = spec_parse_segment(ts, cur0, lexeme_of(name@), Option::None);
                            assert(responses.deep_view() =~= resp0 + so.responses + seq![
                                SpecResponse::Error(Option::None, "failed segment"@),
                            ]);
                        }
                        fin = true;
                    } else {
                        responses.append(&mut sub);
                        segments.push(seg_value);
                        proof {
                            let so = spec_parse_segment(ts, cur0, lexeme_of(name@), Option::None);
                            assert(segments.deep_view() =~= segs0.push(so.seg));
                            assert(responses.deep_view() =~= resp0 + so.responses);
                        }
                    }
                } else {
                    match iter.next() {
                        Option::Some(_) => {},
                        Option::None => {
                            push_grammar_error(&mut responses, &name, "missing token: ");
                            fin = true;
                        },
                    }
                }
            }
            proof {
                assert(body_target.variants == variants.deep_view());
                assert(body_target.segments == segments.deep_view());
                assert(body_target.responses == responses.deep_view());
                assert(body_target.pos == iter.current as int);
            }
        } else {
            push_grammar_error(&mut responses, &name, "empty rule: ");
        }
        let rule = Rule::new(name, is_matching, variants, segments);
        proof {
            assert(rule@ == ro.rule);
            assert(responses.deep_view() == ro.responses);
        }
        let n_res = responses.len();
        if n_res > 0 {
            let out = Outcome::new(rule, Option::Some(responses));
            proof {
                assert(crate::error::spec_responses(out) == ro.responses);
            }
            out
        } else {
            let out = Outcome::new(rule, Option::None);
            proof {
                assert(crate::error::spec_responses(out) =~= ro.responses);
            }
            out
        }
    }

    /// Compile the grammar: scan the tokenized source for rule headers and
    /// compile each rule in turn, stopping at the first failure. The rules
    /// and diagnostics are exactly what the specification's
    /// `spec_parse_template` yields.
    #[verifier::rlimit(60)]
    #[verifier::loop_isolation(false)]
    pub fn parse(&mut self) -> (out: Outcome<()>)
        requires
            old(self)@.source.tokens is Some,
        ensures
            final(self)@.source == old(self)@.source,
            ({
                let tp = spec_parse_template(old(self)@.source.tokens->0, 0, Seq::empty());
                &&& final(self)@.rules == Option::Some(tp.rules)
                &&& crate::error::spec_responses(out) == tp.responses
                &&& (out.response is None <==> tp.responses.len() == 0)
                &&& out.value == ()
            }),
    {
        let ghost ts = self@.source.tokens->0;
        let tokens = match &self.source.tokens {
            Option::Some(v) => v,
            Option::None => {
                proof {
                    assert(false);
                }
                vstd::pervasive::unreached()
            },
        };
        proof {
            assert(tokens.deep_view() == ts);
        }
        let ghost target = spec_parse_template(ts, 0, Seq::empty());
        let mut iter = TokenIterator::new(tokens);
        let mut rules: Vec<Rule> = Vec::new();
        let mut responses: Vec<Response> = Vec::new();
        proof {
            assert(rules.deep_view() =~= Seq::<SpecRule>::empty());
            assert(responses.deep_view() =~= Seq::<SpecResponse>::empty());
        }
        let mut fin = false;
        while !fin
            invariant
                iter.tokens == tokens,
                0 <= iter.current as int <= ts.len(),
                !fin ==> responses.deep_view() == Seq::<SpecResponse>::empty()
                    && spec_parse_template(ts, iter.current as int, rules.deep_view()) == target,
                fin ==> target == (TplOut {
                    rules: rules.deep_view(),
                    responses: responses.deep_view(),
                    pos: iter.current as int,
                }),
            decreases ts.len() - iter.current, (if fin { 0int } else { 1int }),
        {
            let ghost cur0 = iter.current as int;
            let ghost rules0 = rules.deep_view();
            if at_kind(&iter, 0, Type::EOF) {
                iter.eat(1);
                fin = true;
            } else if at_hdr_rule(&iter) {
                proof {
                    lemma_parse_rule_bounds(ts, cur0);
                }
                let o = self.parse_rule(&mut iter);
                let failed = o.is_error();
                let rule_value = o.value;
                let mut sub = match o.response {
                    Option::Some(v) => v,
                    Option::None => Vec::new(),
                };
                proof {
                    let ro = spec_parse_rule(ts, cur0);
                    assert(sub.deep_view() =~= ro.responses);
                }
                if failed {
                    responses.append(&mut sub);
                    responses.push(
                        Response::Error(
                            Option::None,
                            "aborting due to previous errors".to_owned(),
                        ),
                    );
                    proof {
                        let ro = spec_parse_rule(ts, cur0);
                        assert(responses.deep_view() =~= ro.responses + seq![
                            SpecResponse::Error(
                                Option::None,
                                "aborting due to previous errors"@,
                            ),
                        ]);
                    }
                    fin = true;
                } else {
                    rules.push(rule_value);
                    proof {
                        let ro = spec_parse_rule(ts, cur0);
                        assert(rules.deep_view() =~= rules0.push(ro.rule));
                    }
                }
            } else {
                match iter.next() {
                    Option::Some(_) => {},
                    Option::None => {
                        fin = true;
                    },
                }
            }
        }
        proof {
            assert(target.rules == rules.deep_view());
            assert(target.responses == responses.deep_view());
        }
        self.rules = Option::Some(rules);
        let n_res = responses.len();
        if n_res > 0 {
            let out = Outcome::new((), Option::Some(responses));
            proof {
                assert(crate::error::spec_responses(out) == target.responses);
            }
            out
        } else {
            let out = Outcome::new((), Option::None);
            proof {
                assert(crate::error::spec_responses(out) =~= target.responses);
            }
            out
        }
    }
}

} // verus!
