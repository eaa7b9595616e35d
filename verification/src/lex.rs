use vstd::prelude::*;
use crate::error::{SpecPartial, SpecResponse};
use crate::extras::{is_alnum_char, is_alpha_char, is_digit_char, is_space_char};
use crate::token::{SpecToken, Type};

verus! {

// ---------------------------------------------------------------------------
// The lexer as a mathematical function.
//
// The executable `Source::tokenize` is proved to compute exactly the state
// these functions describe: a fold over the lines of the source, and within
// a line a fold over its characters, advancing by a token at a time.
// ---------------------------------------------------------------------------

/// The running state of the lexer: the tokens emitted so far, the stack of
/// open indentation widths, the line where the open block comment began
/// (0 when none is open), the diagnostics so far, and whether the
/// too-many-delimiters diagnostic has already been given.
pub ghost struct LexState {
    pub tokens: Seq<SpecToken>,
    pub indents: Seq<int>,
    pub comment: int,
    pub responses: Seq<SpecResponse>,
    pub flag: bool,
}

pub open spec fn lex_init() -> LexState {
    LexState {
        tokens: Seq::empty(),
        indents: Seq::empty(),
        comment: 0,
        responses: Seq::empty(),
        flag: false,
    }
}

/// A token without a lexeme, as `Indent`, `Dedent`, `EOL` and `EOF` are made.
pub open spec fn bare_token(kind: Type, line: int) -> SpecToken {
    SpecToken { token_type: kind, line, start: 0, end: 0, lexeme: Option::None }
}

/// A token carrying the characters of `line` between `start` and `end`.
pub open spec fn lexed_token(kind: Type, l: int, start: int, end: int, line: Seq<char>) -> SpecToken {
    SpecToken { token_type: kind, line: l, start, end, lexeme: Option::Some(line.subrange(start, end)) }
}

pub open spec fn error_at(l: int, start: int, end: int, msg: Seq<char>) -> SpecResponse {
    SpecResponse::Error(Option::Some(SpecPartial::Pos { line: l, start, end }), msg)
}

/// Whether the delimiter `d` stands in `line` beginning at position `i`.
pub open spec fn delim_at(line: Seq<char>, i: int, d: Seq<char>) -> bool {
    &&& d.len() > 0
    &&& 0 <= i
    &&& i + d.len() <= line.len()
    &&& line.subrange(i, i + d.len()) == d
}

/// The first delimiter of `ds` (from index `k` on) standing at position `i`,
/// as an index into `ds`.
pub open spec fn first_delim_from(line: Seq<char>, i: int, ds: Seq<Seq<char>>, k: int) -> Option<int>
    decreases ds.len() - k,
{
    if k < 0 || k >= ds.len() {
        Option::None
    } else if delim_at(line, i, ds[k]) {
        Option::Some(k)
    } else {
        first_delim_from(line, i, ds, k + 1)
    }
}

pub open spec fn first_delim(line: Seq<char>, i: int, ds: Seq<Seq<char>>) -> Option<int> {
    first_delim_from(line, i, ds, 0)
}

pub proof fn lemma_first_delim_bounds(line: Seq<char>, i: int, ds: Seq<Seq<char>>, k: int)
    requires
        first_delim_from(line, i, ds, k) is Some,
    ensures
        ({
            let j = first_delim_from(line, i, ds, k)->0;
            &&& k <= j < ds.len()
            &&& delim_at(line, i, ds[j])
            &&& forall|m: int| k <= m < j ==> !delim_at(line, i, #[trigger] ds[m])
        }),
    decreases ds.len() - k,
{
    if k < 0 || k >= ds.len() {
    } else if delim_at(line, i, ds[k]) {
    } else {
        lemma_first_delim_bounds(line, i, ds, k + 1);
    }
}

/// The position just past the run of numeric characters beginning at `j`.
pub open spec fn digit_run_end(line: Seq<char>, j: int) -> int
    decreases line.len() - j,
{
    if 0 <= j < line.len() && is_digit_char(line[j]) {
        digit_run_end(line, j + 1)
    } else {
        j
    }
}

pub proof fn lemma_digit_run_end(line: Seq<char>, j: int)
    requires
        0 <= j <= line.len(),
    ensures
        j <= digit_run_end(line, j) <= line.len(),
    decreases line.len() - j,
{
    if 0 <= j < line.len() && is_digit_char(line[j]) {
        lemma_digit_run_end(line, j + 1);
    }
}

/// The position just past the run of alphanumeric characters beginning at `j`.
pub open spec fn alnum_run_end(line: Seq<char>, j: int) -> int
    decreases line.len() - j,
{
    if 0 <= j < line.len() && is_alnum_char(line[j]) {
        alnum_run_end(line, j + 1)
    } else {
        j
    }
}

pub proof fn lemma_alnum_run_end(line: Seq<char>, j: int)
    requires
        0 <= j <= line.len(),
    ensures
        j <= alnum_run_end(line, j) <= line.len(),
    decreases line.len() - j,
{
    if 0 <= j < line.len() && is_alnum_char(line[j]) {
        lemma_alnum_run_end(line, j + 1);
    }
}

/// Where a string opened with delimiter `d` closes: the first position `k`
/// at which `d` stands again and the character before it was not the escape
/// character. `last` is the character before position `k`.
pub open spec fn string_close(line: Seq<char>, k: int, last: char, d: Seq<char>) -> Option<int>
    decreases line.len() - k,
{
    if k < 0 || k >= line.len() {
        Option::None
    } else if last != '\\' && delim_at(line, k, d) {
        Option::Some(k)
    } else {
        string_close(line, k + 1, line[k], d)
    }
}

pub proof fn lemma_string_close_bounds(line: Seq<char>, k: int, last: char, d: Seq<char>)
    requires
        string_close(line, k, last, d) is Some,
    ensures
        ({
            let p = string_close(line, k, last, d)->0;
            &&& k <= p
            &&& p + d.len() <= line.len()
            &&& d.len() > 0
        }),
    decreases line.len() - k,
{
    if k < 0 || k >= line.len() {
    } else if last != '\\' && delim_at(line, k, d) {
    } else {
        lemma_string_close_bounds(line, k + 1, line[k], d);
    }
}

/// Pop indentation levels deeper than `indent`, one `Dedent` token each.
pub open spec fn pop_dedents(st: LexState, indent: int, l: int) -> LexState
    decreases st.indents.len(),
{
    if st.indents.len() > 0 && indent < st.indents.last() {
        pop_dedents(
            LexState {
                tokens: st.tokens.push(bare_token(Type::Dedent, l)),
                indents: st.indents.drop_last(),
                ..st
            },
            indent,
            l,
        )
    } else {
        st
    }
}

/// The indentation comparison made at the first content character of a line:
/// deeper than the stack top opens a level, shallower closes levels until
/// the top is no deeper than the line.
pub open spec fn indent_adjust(st: LexState, indent: int, l: int) -> LexState {
    let top: int = if st.indents.len() > 0 {
        st.indents.last()
    } else {
        0
    };
    if indent < top {
        pop_dedents(st, indent, l)
    } else if indent > top {
        LexState {
            tokens: st.tokens.push(bare_token(Type::Indent, l)),
            indents: st.indents.push(indent),
            ..st
        }
    } else {
        st
    }
}

/// One line's content phase, from position `i` on. Inside a block comment
/// only the closing delimiter is looked for; otherwise the character under
/// the cursor decides between a number, a word, a string, a comment
/// delimiter, a symbol, or nothing.
pub open spec fn lex_content(
    line: Seq<char>,
    l: int,
    i: int,
    st: LexState,
    sd: Seq<Seq<char>>,
    cd: Seq<Seq<char>>,
) -> LexState
    decreases line.len() - i,
    via lex_content_decreases
{
    if i < 0 || i >= line.len() {
        st
    } else if st.comment != 0 {
        match first_delim(line, i, cd) {
            Option::Some(k) => {
                let d = cd[k];
                let st1 = if (cd.len() == 2 || cd.len() == 3) && d == cd[1] {
                    LexState { comment: 0, ..st }
                } else {
                    st
                };
                lex_content(line, l, i + d.len(), st1, sd, cd)
            },
            Option::None => lex_content(line, l, i + 1, st, sd, cd),
        }
    } else if is_digit_char(line[i]) {
        let j = digit_run_end(line, i + 1);
        lex_content(
            line,
            l,
            j,
            LexState { tokens: st.tokens.push(lexed_token(Type::Number, l, i, j, line)), ..st },
            sd,
            cd,
        )
    } else if is_alpha_char(line[i]) {
        let j = alnum_run_end(line, i + 1);
        lex_content(
            line,
            l,
            j,
            LexState { tokens: st.tokens.push(lexed_token(Type::Word, l, i, j, line)), ..st },
            sd,
            cd,
        )
    } else if first_delim(line, i, sd) is Some {
        let d = sd[first_delim(line, i, sd)->0];
        match string_close(line, i + 1, line[i], d) {
            Option::Some(p) => lex_content(
                line,
                l,
                p + d.len(),
                LexState {
                    tokens: st.tokens.push(lexed_token(Type::String, l, i + 1, p, line)),
                    ..st
                },
                sd,
                cd,
            ),
            // No closing delimiter on this line: the rest of the line is
            // consumed by the search and nothing is emitted.
            Option::None => st,
        }
    } else if first_delim(line, i, cd) is Some {
        let d = cd[first_delim(line, i, cd)->0];
        if cd.len() == 1 {
            // A line comment: the rest of the line is discarded.
            st
        } else if cd.len() == 2 {
            if d == cd[1] {
                lex_content(
                    line,
                    l,
                    i + d.len(),
                    LexState {
                        responses: st.responses.push(
                            error_at(l, i, i + d.len(), "unexpected block comment terminator"@),
                        ),
                        ..st
                    },
                    sd,
                    cd,
                )
            } else {
                lex_content(line, l, i + d.len(), LexState { comment: l, ..st }, sd, cd)
            }
        } else if cd.len() == 3 {
            if d == cd[1] {
                lex_content(
                    line,
                    l,
                    i + d.len(),
                    LexState {
                        responses: st.responses.push(
                            error_at(l, i, i + d.len(), "unexpected block comment terminator"@),
                        ),
                        ..st
                    },
                    sd,
                    cd,
                )
            } else if d == cd[0] {
                // A block comment opens and the rest of the line is skipped.
                LexState { comment: l, ..st }
            } else {
                // The line-comment marker: the rest of the line is discarded.
                st
            }
        } else {
            lex_content(line, l, i + d.len(), st, sd, cd)
        }
    } else if !is_space_char(line[i]) {
        lex_content(
            line,
            l,
            i + 1,
            LexState {
                tokens: st.tokens.push(lexed_token(Type::Symbol, l, i, i + 1, line)),
                ..st
            },
            sd,
            cd,
        )
    } else {
        lex_content(line, l, i + 1, st, sd, cd)
    }
}

#[via_fn]
proof fn lex_content_decreases(
    line: Seq<char>,
    l: int,
    i: int,
    st: LexState,
    sd: Seq<Seq<char>>,
    cd: Seq<Seq<char>>,
) {
    if 0 <= i < line.len() {
        if st.comment != 0 {
            if first_delim(line, i, cd) is Some {
                lemma_first_delim_bounds(line, i, cd, 0);
            }
        } else if is_digit_char(line[i]) {
            lemma_digit_run_end(line, i + 1);
        } else if is_alpha_char(line[i]) {
            lemma_alnum_run_end(line, i + 1);
        } else if first_delim(line, i, sd) is Some {
            lemma_first_delim_bounds(line, i, sd, 0);
            let d = sd[first_delim(line, i, sd)->0];
            if string_close(line, i + 1, line[i], d) is Some {
                lemma_string_close_bounds(line, i + 1, line[i], d);
            }
        } else if first_delim(line, i, cd) is Some {
            lemma_first_delim_bounds(line, i, cd, 0);
        }
    }
}

/// One line's indentation phase: count leading whitespace; at the first
/// content character adjust the indentation stack (unless a block comment
/// is open) and hand over to the content phase.
pub open spec fn lex_indent(
    line: Seq<char>,
    l: int,
    i: int,
    indent: int,
    st: LexState,
    sd: Seq<Seq<char>>,
    cd: Seq<Seq<char>>,
) -> LexState
    decreases line.len() - i,
{
    if i < 0 || i >= line.len() {
        st
    } else if is_space_char(line[i]) {
        lex_indent(line, l, i + 1, indent + 1, st, sd, cd)
    } else {
        let st1 = if st.comment == 0 {
            indent_adjust(st, indent, l)
        } else {
            st
        };
        lex_content(line, l, i, st1, sd, cd)
    }
}

/// The too-many-comment-delimiters check made once per line, reported once.
pub open spec fn delims_step(st: LexState, l: int, cd: Seq<Seq<char>>) -> LexState {
    if cd.len() > 3 && !st.flag {
        LexState {
            responses: st.responses.push(error_at(l, 0, 0, "too many comment delimiters"@)),
            flag: true,
            ..st
        }
    } else {
        st
    }
}

/// The end-of-line step: a line ends with `EOL` unless a block comment is
/// open or the last token already ends a line.
pub open spec fn eol_step(st: LexState, l: int) -> LexState {
    if st.comment == 0 && st.tokens.len() > 0 && !(st.tokens.last().token_type is EOL)
        && !(st.tokens.last().token_type is Dedent) {
        LexState { tokens: st.tokens.push(bare_token(Type::EOL, l)), ..st }
    } else {
        st
    }
}

/// The whole of one line, numbered `l` (1-based).
pub open spec fn lex_line(
    line: Seq<char>,
    l: int,
    st: LexState,
    sd: Seq<Seq<char>>,
    cd: Seq<Seq<char>>,
) -> LexState {
    eol_step(lex_indent(line, l, 0, 0, delims_step(st, l, cd), sd, cd), l)
}

/// All lines from index `l` on.
pub open spec fn lex_lines(
    lines: Seq<Seq<char>>,
    sd: Seq<Seq<char>>,
    cd: Seq<Seq<char>>,
    l: int,
    st: LexState,
) -> LexState
    decreases lines.len() - l,
{
    if l < 0 || l >= lines.len() {
        st
    } else {
        lex_lines(lines, sd, cd, l + 1, lex_line(lines[l], l + 1, st, sd, cd))
    }
}

/// Close the remaining indentation levels, one `Dedent` each, at line `l`.
pub open spec fn drain_dedents(st: LexState, l: int) -> LexState
    decreases st.indents.len(),
{
    if st.indents.len() > 0 {
        drain_dedents(
            LexState {
                tokens: st.tokens.push(bare_token(Type::Dedent, l)),
                indents: st.indents.drop_last(),
                ..st
            },
            l,
        )
    } else {
        st
    }
}

/// The end-of-input step: an open block comment is an error naming its
/// opening line; all open indentation levels close; one `EOF` ends the
/// stream.
pub open spec fn finalize(st: LexState, nlines: int) -> LexState {
    let st1 = if st.comment != 0 {
        LexState {
            responses: st.responses.push(
                error_at(st.comment, st.comment, st.comment, "unterminated block comment"@),
            ),
            ..st
        }
    } else {
        st
    };
    let st2 = drain_dedents(st1, nlines);
    LexState { tokens: st2.tokens.push(bare_token(Type::EOF, nlines)), ..st2 }
}

/// The lexer, whole: what tokenizing `lines` under string delimiters `sd`
/// and comment delimiters `cd` produces.
pub open spec fn spec_tokenize(
    lines: Seq<Seq<char>>,
    sd: Seq<Seq<char>>,
    cd: Seq<Seq<char>>,
) -> LexState {
    finalize(lex_lines(lines, sd, cd, 0, lex_init()), lines.len() as int)
}

} // verus!
