use vstd::prelude::*;
use crate::error::{Outcome, Response};
use crate::extras::{
    char_is_alphabetic, char_is_alphanumeric, char_is_numeric, char_is_whitespace, find_char_from,
    is_alpha_char, is_digit_char, is_prefix, is_space_char,
    lemma_find_char_bounds, line_chars, spec_split_ws, split_ws, str_eq, str_find_char,
    str_starts_with,
};
use crate::token::PartialToken;
use crate::lex::{
    bare_token, delim_at, delims_step, digit_run_end, drain_dedents, eol_step, finalize,
    first_delim, first_delim_from, indent_adjust, lemma_first_delim_bounds, lex_content,
    lex_indent, lex_init, lex_line, lex_lines, lexed_token, pop_dedents, spec_tokenize, LexState,
    string_close,
};
use crate::token::{SpecToken, Token, Type};

verus! {

/// The mathematical image of a `Source`.
pub ghost struct SpecSource {
    pub path: Seq<char>,
    pub lines: Seq<Seq<char>>,
    pub tokens: Option<Seq<SpecToken>>,
    pub directives: Seq<(Seq<char>, Seq<char>)>,
}

/// One body of source text: its path, its lines (directive lines blanked
/// out), the directives read off those lines, and, once `tokenize` has run,
/// its token sequence.
#[derive(Debug)]
pub struct Source {
    pub path: String,
    pub lines: Vec<String>,
    pub tokens: Option<Vec<Token>>,
    pub directives: Vec<(String, String)>,
}

impl View for Source {
    type V = SpecSource;

    open spec fn view(&self) -> SpecSource {
        SpecSource {
            path: self.path@,
            lines: self.lines.deep_view(),
            tokens: match self.tokens {
                Option::Some(ts) => Option::Some(ts.deep_view()),
                Option::None => Option::None,
            },
            directives: self.directives.deep_view(),
        }
    }
}

/// What one line of a new source looks like: a line carrying a directive is
/// replaced by an empty line, the rest stay as they are.
pub open spec fn spec_masked_line(ln: Seq<char>, ctrl: Option<Seq<char>>) -> Seq<char> {
    match ctrl {
        Option::Some(c) => if is_prefix(c, ln) {
            Seq::<char>::empty()
        } else {
            ln
        },
        Option::None => ln,
    }
}

pub open spec fn spec_masked_lines(lines: Seq<Seq<char>>, ctrl: Option<Seq<char>>) -> Seq<
    Seq<char>,
> {
    Seq::new(lines.len(), |j: int| spec_masked_line(lines[j], ctrl))
}

/// The directive a control line carries: the name runs from the end of the
/// marker to the first space, the value is everything after that space.
pub open spec fn spec_directive_of(ln: Seq<char>, c: Seq<char>) -> (Seq<char>, Seq<char>) {
    let p = find_char_from(ln, ' ', 0)->0;
    (ln.subrange(c.len() as int, p), ln.subrange(p + 1, ln.len() as int))
}

pub open spec fn spec_directives_from(lines: Seq<Seq<char>>, c: Seq<char>, j: int) -> Seq<
    (Seq<char>, Seq<char>),
>
    decreases lines.len() - j,
{
    if j < 0 || j >= lines.len() {
        Seq::empty()
    } else {
        let rest = spec_directives_from(lines, c, j + 1);
        if is_prefix(c, lines[j]) {
            seq![spec_directive_of(lines[j], c)] + rest
        } else {
            rest
        }
    }
}

/// The ordered directive pairs of a source given its control marker.
pub open spec fn spec_directives(lines: Seq<Seq<char>>, ctrl: Option<Seq<char>>) -> Seq<
    (Seq<char>, Seq<char>),
> {
    match ctrl {
        Option::Some(c) => spec_directives_from(lines, c, 0),
        Option::None => Seq::empty(),
    }
}

pub open spec fn view_ctrl(ctrl: Option<&str>) -> Option<Seq<char>> {
    match ctrl {
        Option::Some(c) => Option::Some(c@),
        Option::None => Option::None,
    }
}

/// The first directive of the given name, if any, by its value.
pub open spec fn spec_get_directive_from(
    ds: Seq<(Seq<char>, Seq<char>)>,
    name: Seq<char>,
    k: int,
) -> Option<Seq<char>>
    decreases ds.len() - k,
{
    if k < 0 || k >= ds.len() {
        Option::None
    } else if ds[k].0 == name {
        Option::Some(ds[k].1)
    } else {
        spec_get_directive_from(ds, name, k + 1)
    }
}

pub open spec fn spec_get_directive(ds: Seq<(Seq<char>, Seq<char>)>, name: Seq<char>) -> Option<
    Seq<char>,
> {
    spec_get_directive_from(ds, name, 0)
}

/// The string delimiters a source's directives configure: the whitespace-
/// separated pieces of the `string` directive's value.
pub open spec fn spec_string_delims(ds: Seq<(Seq<char>, Seq<char>)>) -> Seq<Seq<char>> {
    match spec_get_directive(ds, "string"@) {
        Option::Some(v) => spec_split_ws(v),
        Option::None => Seq::empty(),
    }
}

/// The comment delimiters a source's directives configure.
pub open spec fn spec_comment_delims(ds: Seq<(Seq<char>, Seq<char>)>) -> Seq<Seq<char>> {
    match spec_get_directive(ds, "comment"@) {
        Option::Some(v) => spec_split_ws(v),
        Option::None => Seq::empty(),
    }
}

/// The indentation stack as the spec state carries it.
pub open spec fn indents_view(s: Seq<usize>) -> Seq<int> {
    Seq::new(s.len(), |i: int| s[i] as int)
}

/// The lexer's running state as the executable code holds it, seen as the
/// mathematical state the `lex` functions fold over.
pub open spec fn st_of(
    tokens: Vec<Token>,
    indents: Vec<usize>,
    comment: usize,
    responses: Vec<Response>,
    flag: bool,
) -> LexState {
    LexState {
        tokens: tokens.deep_view(),
        indents: indents_view(indents@),
        comment: comment as int,
        responses: responses.deep_view(),
        flag,
    }
}

/// Whether the delimiter `d` stands in `chars` at position `i`.
fn delim_at_exec(chars: &Vec<char>, i: usize, d: &str) -> (r: bool)
    ensures
        r == delim_at(chars@, i as int, d@),
{
    let dn = d.unicode_len();
    let n = chars.len();
    if dn == 0 || i > n || dn > n - i {
        return false;
    }
    let mut k: usize = 0;
    while k < dn
        invariant
            dn == d@.len(),
            n == chars@.len(),
            0 < dn,
            i + dn <= n,
            0 <= k <= dn,
            forall|m: int| 0 <= m < k ==> chars@[i + m] == d@[m],
        decreases dn - k,
    {
        if chars[i + k] != d.get_char(k) {
            assert(chars@.subrange(i as int, i + dn) != d@) by {
                assert(chars@.subrange(i as int, i + dn)[k as int] != d@[k as int]);
            }
            return false;
        }
        k = k + 1;
    }
    proof {
        assert(chars@.subrange(i as int, i + dn) =~= d@);
    }
    true
}

/// The first delimiter of `ds` standing at position `i`, as an index.
fn first_delim_exec(chars: &Vec<char>, i: usize, ds: &Vec<String>) -> (r: Option<usize>)
    ensures
        match r {
            Option::Some(k) => first_delim(chars@, i as int, ds.deep_view()) == Option::Some(
                k as int,
            ) && k < ds@.len(),
            Option::None => first_delim(chars@, i as int, ds.deep_view()) is None,
        },
{
    let n = ds.len();
    let mut k: usize = 0;
    while k < n
        invariant
            n == ds@.len(),
            0 <= k <= n,
            first_delim(chars@, i as int, ds.deep_view()) == first_delim_from(
                chars@,
                i as int,
                ds.deep_view(),
                k as int,
            ),
        decreases n - k,
    {
        proof {
            assert(ds.deep_view()[k as int] == ds@[k as int]@);
        }
        if delim_at_exec(chars, i, ds[k].as_str()) {
            return Option::Some(k);
        }
        k = k + 1;
    }
    Option::None
}

/// The end of the run of numeric characters beginning at `start`.
fn scan_digit_run(chars: &Vec<char>, start: usize) -> (j: usize)
    requires
        start <= chars@.len(),
    ensures
        j == digit_run_end(chars@, start as int),
        start <= j <= chars@.len(),
{
    let n = chars.len();
    let mut j: usize = start;
    while j < n
        invariant
            n == chars@.len(),
            start <= j <= n,
            digit_run_end(chars@, start as int) == digit_run_end(chars@, j as int),
        ensures
            digit_run_end(chars@, j as int) == j as int,
        decreases n - j,
    {
        if !char_is_numeric(chars[j]) {
            break;
        }
        j = j + 1;
    }
    j
}

/// The end of the run of alphanumeric characters beginning at `start`.
fn scan_alnum_run(chars: &Vec<char>, start: usize) -> (j: usize)
    requires
        start <= chars@.len(),
    ensures
        j == crate::lex::alnum_run_end(chars@, start as int),
        start <= j <= chars@.len(),
{
    let n = chars.len();
    let mut j: usize = start;
    while j < n
        invariant
            n == chars@.len(),
            start <= j <= n,
            crate::lex::alnum_run_end(chars@, start as int) == crate::lex::alnum_run_end(
                chars@,
                j as int,
            ),
        ensures
            crate::lex::alnum_run_end(chars@, j as int) == j as int,
        decreases n - j,
    {
        if !char_is_alphanumeric(chars[j]) {
            break;
        }
        j = j + 1;
    }
    j
}

/// Where the string opened at `start - 1` closes, scanning from `start`
/// with `last0` the opening character.
fn scan_string_close(chars: &Vec<char>, start: usize, last0: char, d: &str) -> (r: Option<usize>)
    requires
        start <= chars@.len(),
    ensures
        match r {
            Option::Some(p) => {
                &&& string_close(chars@, start as int, last0, d@) == Option::Some(p as int)
                &&& start <= p
                &&& p + d@.len() <= chars@.len()
                &&& d@.len() > 0
            },
            Option::None => string_close(chars@, start as int, last0, d@) is None,
        },
{
    let n = chars.len();
    let mut p: usize = start;
    let mut last = last0;
    while p < n
        invariant
            n == chars@.len(),
            start <= p <= n,
            string_close(chars@, start as int, last0, d@) == string_close(
                chars@,
                p as int,
                last,
                d@,
            ),
        decreases n - p,
    {
        if last != '\\' && delim_at_exec(chars, p, d) {
            proof {
                crate::lex::lemma_string_close_bounds(chars@, p as int, last, d@);
            }
            return Option::Some(p);
        }
        last = chars[p];
        p = p + 1;
    }
    Option::None
}

/// One content-phase step while a block comment is open: only the closing
/// delimiter is looked for.
#[verifier::loop_isolation(false)]
fn step_in_comment(
    chars: &Vec<char>,
    l: usize,
    i: usize,
    comment: &mut usize,
    tokens: &Vec<Token>,
    indents: &Vec<usize>,
    responses: &Vec<Response>,
    flag: bool,
    string_d: &Vec<String>,
    comment_d: &Vec<String>,
) -> (ni: usize)
    requires
        l < usize::MAX,
        i < chars@.len(),
        *old(comment) != 0,
    ensures
        i < ni <= chars@.len(),
        lex_content(
            chars@,
            l + 1,
            i as int,
            st_of(*tokens, *indents, *old(comment), *responses, flag),
            string_d.deep_view(),
            comment_d.deep_view(),
        ) == lex_content(
            chars@,
            l + 1,
            ni as int,
            st_of(*tokens, *indents, *final(comment), *responses, flag),
            string_d.deep_view(),
            comment_d.deep_view(),
        ),
{
    let ghost cdv = comment_d.deep_view();
    let ghost st_p = st_of(*tokens, *indents, *comment, *responses, flag);
    let n = chars.len();
    match first_delim_exec(chars, i, comment_d) {
        Option::Some(k) => {
            proof {
                lemma_first_delim_bounds(chars@, i as int, cdv, 0);
                assert(comment_d@[k as int]@ == cdv[k as int]);
            }
            let dlen = comment_d[k].as_str().unicode_len();
            proof {
                assert(i + dlen <= n);
            }
            if (comment_d.len() == 2 || comment_d.len() == 3) && str_eq(
                comment_d[k].as_str(),
                comment_d[1].as_str(),
            ) {
                *comment = 0;
            }
            proof {
                if cdv.len() == 2 || cdv.len() == 3 {
                    assert(comment_d.deep_view()[1] == comment_d@[1]@);
                }
            }
            i + dlen
        },
        Option::None => i + 1,
    }
}

/// One content-phase step at a numeric character: the run of digits becomes
/// one `Number` token.
#[verifier::loop_isolation(false)]
fn step_number(
    line: &String,
    chars: &Vec<char>,
    l: usize,
    i: usize,
    tokens: &mut Vec<Token>,
    indents: &Vec<usize>,
    comment: usize,
    responses: &Vec<Response>,
    flag: bool,
    string_d: &Vec<String>,
    comment_d: &Vec<String>,
) -> (ni: usize)
    requires
        l < usize::MAX,
        chars@ == line@,
        i < chars@.len(),
        comment == 0,
        is_digit_char(chars@[i as int]),
    ensures
        i < ni <= chars@.len(),
        lex_content(
            chars@,
            l + 1,
            i as int,
            st_of(*old(tokens), *indents, comment, *responses, flag),
            string_d.deep_view(),
            comment_d.deep_view(),
        ) == lex_content(
            chars@,
            l + 1,
            ni as int,
            st_of(*final(tokens), *indents, comment, *responses, flag),
            string_d.deep_view(),
            comment_d.deep_view(),
        ),
{
    let ghost st_p = st_of(*tokens, *indents, comment, *responses, flag);
    let ln = l + 1;
    let n = chars.len();
    let j = scan_digit_run(chars, i + 1);
    let lexeme = line.as_str().substring_char(i, j).to_owned();
    let ghost old_toks = tokens.deep_view();
    tokens.push(Token::number(ln, (i, j), lexeme));
    proof {
        assert(tokens.deep_view() =~= old_toks.push(
            lexed_token(Type::Number, ln as int, i as int, j as int, chars@),
        ));
        assert(st_of(*tokens, *indents, comment, *responses, flag) == (LexState {
            tokens: st_p.tokens.push(
                lexed_token(Type::Number, ln as int, i as int, j as int, chars@),
            ),
            ..st_p
        }));
    }
    j
}

/// One content-phase step at an alphabetic character: the run of
/// alphanumeric characters becomes one `Word` token.
#[verifier::loop_isolation(false)]
fn step_word(
    line: &String,
    chars: &Vec<char>,
    l: usize,
    i: usize,
    tokens: &mut Vec<Token>,
    indents: &Vec<usize>,
    comment: usize,
    responses: &Vec<Response>,
    flag: bool,
    string_d: &Vec<String>,
    comment_d: &Vec<String>,
) -> (ni: usize)
    requires
        l < usize::MAX,
        chars@ == line@,
        i < chars@.len(),
        comment == 0,
        !is_digit_char(chars@[i as int]),
        is_alpha_char(chars@[i as int]),
    ensures
        i < ni <= chars@.len(),
        lex_content(
            chars@,
            l + 1,
            i as int,
            st_of(*old(tokens), *indents, comment, *responses, flag),
            string_d.deep_view(),
            comment_d.deep_view(),
        ) == lex_content(
            chars@,
            l + 1,
            ni as int,
            st_of(*final(tokens), *indents, comment, *responses, flag),
            string_d.deep_view(),
            comment_d.deep_view(),
        ),
{
    let ghost st_p = st_of(*tokens, *indents, comment, *responses, flag);
    let ln = l + 1;
    let n = chars.len();
    let j = scan_alnum_run(chars, i + 1);
    let lexeme = line.as_str().substring_char(i, j).to_owned();
    let ghost old_toks = tokens.deep_view();
    tokens.push(Token::word(ln, (i, j), lexeme));
    proof {
        assert(tokens.deep_view() =~= old_toks.push(
            lexed_token(Type::Word, ln as int, i as int, j as int, chars@),
        ));
        assert(st_of(*tokens, *indents, comment, *responses, flag) == (LexState {
            tokens: st_p.tokens.push(
                lexed_token(Type::Word, ln as int, i as int, j as int, chars@),
            ),
            ..st_p
        }));
    }
    j
}

/// One content-phase step at an opening string delimiter: scan for the
/// unescaped closing delimiter; without one the rest of the line is
/// consumed and nothing is emitted.
#[verifier::loop_isolation(false)]
fn step_string(
    line: &String,
    chars: &Vec<char>,
    l: usize,
    i: usize,
    k: usize,
    tokens: &mut Vec<Token>,
    indents: &Vec<usize>,
    comment: usize,
    responses: &Vec<Response>,
    flag: bool,
    string_d: &Vec<String>,
    comment_d: &Vec<String>,
) -> (r: (usize, bool))
    requires
        l < usize::MAX,
        chars@ == line@,
        i < chars@.len(),
        comment == 0,
        !is_digit_char(chars@[i as int]),
        !is_alpha_char(chars@[i as int]),
        first_delim(chars@, i as int, string_d.deep_view()) == Option::Some(k as int),
        k < string_d@.len(),
    ensures
        ({
            let st_old = st_of(*old(tokens), *indents, comment, *responses, flag);
            let st_new = st_of(*final(tokens), *indents, comment, *responses, flag);
            let sdv = string_d.deep_view();
            let cdv = comment_d.deep_view();
            &&& !r.1 ==> i < r.0 <= chars@.len() && lex_content(
                chars@,
                l + 1,
                i as int,
                st_old,
                sdv,
                cdv,
            ) == lex_content(chars@, l + 1, r.0 as int, st_new, sdv, cdv)
            &&& r.1 ==> st_new == lex_content(chars@, l + 1, i as int, st_old, sdv, cdv)
        }),
{
    let ghost sdv = string_d.deep_view();
    let ghost st_p = st_of(*tokens, *indents, comment, *responses, flag);
    let ln = l + 1;
    proof {
        lemma_first_delim_bounds(chars@, i as int, sdv, 0);
        assert(string_d@[k as int]@ == sdv[k as int]);
    }
    let dlen = string_d[k].as_str().unicode_len();
    let n = chars.len();
    let c = chars[i];
    match scan_string_close(chars, i + 1, c, string_d[k].as_str()) {
        Option::Some(p) => {
            proof {
                assert(p + dlen <= n);
            }
            let lexeme = line.as_str().substring_char(i + 1, p).to_owned();
            let ghost old_toks = tokens.deep_view();
            tokens.push(Token::string(ln, (i + 1, p), lexeme));
            proof {
                assert(tokens.deep_view() =~= old_toks.push(
                    lexed_token(Type::String, ln as int, i + 1, p as int, chars@),
                ));
                assert(st_of(*tokens, *indents, comment, *responses, flag) == (LexState {
                    tokens: st_p.tokens.push(
                        lexed_token(Type::String, ln as int, i + 1, p as int, chars@),
                    ),
                    ..st_p
                }));
            }
            (p + dlen, false)
        },
        Option::None => {
            proof {
                assert(lex_content(chars@, l + 1, i as int, st_p, sdv, comment_d.deep_view())
                    == st_p);
            }
            (i, true)
        },
    }
}

/// One content-phase step at a comment delimiter: a line comment discards
/// the rest of the line; a block opener records its line; a block
/// terminator outside a block is an error.
#[verifier::loop_isolation(false)]
fn step_comment_mark(
    chars: &Vec<char>,
    l: usize,
    i: usize,
    k: usize,
    comment: &mut usize,
    responses: &mut Vec<Response>,
    tokens: &Vec<Token>,
    indents: &Vec<usize>,
    flag: bool,
    string_d: &Vec<String>,
    comment_d: &Vec<String>,
) -> (r: (usize, bool))
    requires
        l < usize::MAX,
        i < chars@.len(),
        *old(comment) == 0,
        !is_digit_char(chars@[i as int]),
        !is_alpha_char(chars@[i as int]),
        first_delim(chars@, i as int, string_d.deep_view()) is None,
        first_delim(chars@, i as int, comment_d.deep_view()) == Option::Some(k as int),
        k < comment_d@.len(),
    ensures
        ({
            let st_old = st_of(*tokens, *indents, *old(comment), *old(responses), flag);
            let st_new = st_of(*tokens, *indents, *final(comment), *final(responses), flag);
            let sdv = string_d.deep_view();
            let cdv = comment_d.deep_view();
            &&& !r.1 ==> i < r.0 <= chars@.len() && lex_content(
                chars@,
                l + 1,
                i as int,
                st_old,
                sdv,
                cdv,
            ) == lex_content(chars@, l + 1, r.0 as int, st_new, sdv, cdv)
            &&& r.1 ==> st_new == lex_content(chars@, l + 1, i as int, st_old, sdv, cdv)
        }),
{
    let ghost cdv = comment_d.deep_view();
    let ghost st_p = st_of(*tokens, *indents, *comment, *responses, flag);
    let ln = l + 1;
    proof {
        lemma_first_delim_bounds(chars@, i as int, cdv, 0);
        assert(comment_d@[k as int]@ == cdv[k as int]);
    }
    let dlen = comment_d[k].as_str().unicode_len();
    let n = chars.len();
    proof {
        assert(i + dlen <= n);
    }
    if comment_d.len() == 1 {
        // A line comment: the rest of the line is discarded.
        (i, true)
    } else if comment_d.len() == 2 {
        proof {
            assert(comment_d.deep_view()[1] == comment_d@[1]@);
        }
        if str_eq(comment_d[k].as_str(), comment_d[1].as_str()) {
            let ghost old_rs = responses.deep_view();
            responses.push(
                Response::Error(
                    Option::Some(PartialToken::Pos { line: ln, slice: (i, i + dlen) }),
                    "unexpected block comment terminator".to_owned(),
                ),
            );
            proof {
                assert(responses.deep_view() =~= old_rs.push(
                    crate::lex::error_at(
                        ln as int,
                        i as int,
                        i + dlen,
                        "unexpected block comment terminator"@,
                    ),
                ));
            }
            (i + dlen, false)
        } else {
            *comment = ln;
            (i + dlen, false)
        }
    } else if comment_d.len() == 3 {
        proof {
            assert(comment_d.deep_view()[0] == comment_d@[0]@);
            assert(comment_d.deep_view()[1] == comment_d@[1]@);
        }
        if str_eq(comment_d[k].as_str(), comment_d[1].as_str()) {
            let ghost old_rs = responses.deep_view();
            responses.push(
                Response::Error(
                    Option::Some(PartialToken::Pos { line: ln, slice: (i, i + dlen) }),
                    "unexpected block comment terminator".to_owned(),
                ),
            );
            proof {
                assert(responses.deep_view() =~= old_rs.push(
                    crate::lex::error_at(
                        ln as int,
                        i as int,
                        i + dlen,
                        "unexpected block comment terminator"@,
                    ),
                ));
            }
            (i + dlen, false)
        } else if str_eq(comment_d[k].as_str(), comment_d[0].as_str()) {
            // A block comment opens and the rest of the line is skipped.
            *comment = ln;
            (i, true)
        } else {
            // The line-comment marker: the rest of the line is discarded.
            (i, true)
        }
    } else {
        (i + dlen, false)
    }
}

/// The indentation comparison at the first content character of a line.
#[verifier::loop_isolation(false)]
fn adjust_indent(
    indent: usize,
    l: usize,
    tokens: &mut Vec<Token>,
    indents: &mut Vec<usize>,
    comment: usize,
    responses: &Vec<Response>,
    flag: bool,
) -> (nothing: ())
    requires
        l < usize::MAX,
    ensures
        st_of(*final(tokens), *final(indents), comment, *responses, flag) == indent_adjust(
            st_of(*old(tokens), *old(indents), comment, *responses, flag),
            indent as int,
            l + 1,
        ),
{
    let ghost st0 = st_of(*tokens, *indents, comment, *responses, flag);
    let ln = l + 1;
    let mut top: usize = 0;
    if indents.len() > 0 {
        top = indents[indents.len() - 1];
    }
    if indent < top {
        while indents.len() > 0 && indent < indents[indents.len() - 1]
            invariant
                pop_dedents(
                    st_of(*tokens, *indents, comment, *responses, flag),
                    indent as int,
                    ln as int,
                ) == pop_dedents(st0, indent as int, ln as int),
            decreases indents@.len(),
        {
            let ghost st_p = st_of(*tokens, *indents, comment, *responses, flag);
            let ghost old_toks = tokens.deep_view();
            let ghost old_inds = indents@;
            indents.pop();
            tokens.push(Token::dedent(ln));
            proof {
                assert(tokens.deep_view() =~= old_toks.push(bare_token(Type::Dedent, ln as int)));
                assert(indents_view(indents@) =~= indents_view(old_inds).drop_last());
                assert(st_p.indents.len() > 0 && (indent as int) < st_p.indents.last());
                assert(st_of(*tokens, *indents, comment, *responses, flag) == (LexState {
                    tokens: st_p.tokens.push(bare_token(Type::Dedent, ln as int)),
                    indents: st_p.indents.drop_last(),
                    ..st_p
                }));
            }
        }
        proof {
            let st_now = st_of(*tokens, *indents, comment, *responses, flag);
            assert(pop_dedents(st_now, indent as int, ln as int) == st_now);
        }
    } else if indent > top {
        let ghost old_toks = tokens.deep_view();
        let ghost old_inds = indents@;
        indents.push(indent);
        tokens.push(Token::indent(ln));
        proof {
            assert(tokens.deep_view() =~= old_toks.push(bare_token(Type::Indent, ln as int)));
            assert(indents_view(indents@) =~= indents_view(old_inds).push(indent as int));
        }
    }
}

/// Lex one line, carrying the running lexer state forward; the state
/// afterwards is exactly what the specification's `lex_line` yields.
#[verifier::rlimit(60)]
#[verifier::loop_isolation(false)]
fn lex_one_line(
    line: &String,
    l: usize,
    tokens: &mut Vec<Token>,
    indents: &mut Vec<usize>,
    comment: &mut usize,
    responses: &mut Vec<Response>,
    flag: &mut bool,
    string_d: &Vec<String>,
    comment_d: &Vec<String>,
)
    requires
        l < usize::MAX,
    ensures
        st_of(
            *final(tokens),
            *final(indents),
            *final(comment),
            *final(responses),
            *final(flag),
        ) == lex_line(
            line@,
            l + 1,
            st_of(*old(tokens), *old(indents), *old(comment), *old(responses), *old(flag)),
            string_d.deep_view(),
            comment_d.deep_view(),
        ),
{
    let ghost linev = line@;
    let ghost sdv = string_d.deep_view();
    let ghost cdv = comment_d.deep_view();
    let ghost st_in = st_of(*tokens, *indents, *comment, *responses, *flag);
    let ln = l + 1;
    let ghost lni = ln as int;

    // The too-many-comment-delimiters check, reported at most once.
    if comment_d.len() > 3 && !*flag {
        let ghost old_rs = responses.deep_view();
        responses.push(
            Response::Error(
                Option::Some(PartialToken::Pos { line: ln, slice: (0, 0) }),
                "too many comment delimiters".to_owned(),
            ),
        );
        *flag = true;
        proof {
            assert(responses.deep_view() =~= old_rs.push(
                crate::lex::error_at(lni, 0, 0, "too many comment delimiters"@),
            ));
        }
    }
    let ghost st1 = delims_step(st_in, lni, cdv);
    proof {
        assert(st_of(*tokens, *indents, *comment, *responses, *flag) == st1);
    }

    let chars = line_chars(line.as_str());
    let n = chars.len();

    // The indentation phase: count leading whitespace.
    let mut i: usize = 0;
    let mut at_content = false;
    while i < n && !at_content
        invariant
            0 <= i <= n,
            lex_indent(linev, lni, i as int, i as int, st1, sdv, cdv) == lex_indent(
                linev,
                lni,
                0,
                0,
                st1,
                sdv,
                cdv,
            ),
            at_content ==> i < n && !is_space_char(linev[i as int]),
            st_of(*tokens, *indents, *comment, *responses, *flag) == st1,
        decreases n - i, (if at_content { 0int } else { 1int }),
    {
        if !char_is_whitespace(chars[i]) {
            at_content = true;
        } else {
            i = i + 1;
        }
    }

    if i < n {
        // The first content character: settle indentation, then scan content.
        if *comment == 0 {
            adjust_indent(i, l, tokens, indents, *comment, responses, *flag);
        }
        let ghost st2 = if st1.comment == 0 {
            indent_adjust(st1, i as int, lni)
        } else {
            st1
        };
        proof {
            assert(st_of(*tokens, *indents, *comment, *responses, *flag) == st2);
        }
        let ghost target = lex_content(linev, lni, i as int, st2, sdv, cdv);
        proof {
            assert(lex_indent(linev, lni, i as int, i as int, st1, sdv, cdv) == target);
        }

        // The content phase. `done` marks that the rest of the line is
        // discarded (a line comment, a block opener, or an unclosed string).
        let mut done = false;
        while i < n && !done
            invariant
                0 <= i <= n,
                !done ==> lex_content(
                    linev,
                    lni,
                    i as int,
                    st_of(*tokens, *indents, *comment, *responses, *flag),
                    sdv,
                    cdv,
                ) == target,
                done ==> st_of(*tokens, *indents, *comment, *responses, *flag) == target,
            decreases n - i, (if done { 0int } else { 1int }),
        {
            let c = chars[i];
            if *comment != 0 {
                i = step_in_comment(
                    &chars,
                    l,
                    i,
                    comment,
                    tokens,
                    indents,
                    responses,
                    *flag,
                    string_d,
                    comment_d,
                );
            } else if char_is_numeric(c) {
                i = step_number(
                    line,
                    &chars,
                    l,
                    i,
                    tokens,
                    indents,
                    *comment,
                    responses,
                    *flag,
                    string_d,
                    comment_d,
                );
            } else if char_is_alphabetic(c) {
                i = step_word(
                    line,
                    &chars,
                    l,
                    i,
                    tokens,
                    indents,
                    *comment,
                    responses,
                    *flag,
                    string_d,
                    comment_d,
                );
            } else {
                match first_delim_exec(&chars, i, string_d) {
                    Option::Some(k) => {
                        let r = step_string(
                            line,
                            &chars,
                            l,
                            i,
                            k,
                            tokens,
                            indents,
                            *comment,
                            responses,
                            *flag,
                            string_d,
                            comment_d,
                        );
                        if r.1 {
                            done = true;
                        } else {
                            i = r.0;
                        }
                    },
                    Option::None => {
                        match first_delim_exec(&chars, i, comment_d) {
                            Option::Some(k) => {
                                let r = step_comment_mark(
                                    &chars,
                                    l,
                                    i,
                                    k,
                                    comment,
                                    responses,
                                    tokens,
                                    indents,
                                    *flag,
                                    string_d,
                                    comment_d,
                                );
                                if r.1 {
                                    done = true;
                                } else {
                                    i = r.0;
                                }
                            },
                            Option::None => {
                                let ghost st_p = st_of(
                                    *tokens,
                                    *indents,
                                    *comment,
                                    *responses,
                                    *flag,
                                );
                                if !char_is_whitespace(c) {
                                    let lexeme = line.as_str().substring_char(i, i + 1).to_owned();
                                    let ghost old_toks = tokens.deep_view();
                                    tokens.push(Token::symbol(ln, (i, i + 1), lexeme));
                                    proof {
                                        assert(tokens.deep_view() =~= old_toks.push(
                                            lexed_token(
                                                Type::Symbol,
                                                lni,
                                                i as int,
                                                i + 1,
                                                linev,
                                            ),
                                        ));
                                        assert(st_of(
                                            *tokens,
                                            *indents,
                                            *comment,
                                            *responses,
                                            *flag,
                                        ) == (LexState {
                                            tokens: st_p.tokens.push(
                                                lexed_token(Type::Symbol, lni, i as int, i + 1, linev),
                                            ),
                                            ..st_p
                                        }));
                                    }
                                }
                                i = i + 1;
                            },
                        }
                    },
                }
            }
        }
        proof {
            assert(st_of(*tokens, *indents, *comment, *responses, *flag) == target);
            assert(st_of(*tokens, *indents, *comment, *responses, *flag) == lex_indent(
                linev,
                lni,
                0,
                0,
                st1,
                sdv,
                cdv,
            ));
        }
    } else {
        proof {
            assert(lex_indent(linev, lni, i as int, i as int, st1, sdv, cdv) == st1);
            assert(st_of(*tokens, *indents, *comment, *responses, *flag) == lex_indent(
                linev,
                lni,
                0,
                0,
                st1,
                sdv,
                cdv,
            ));
        }
    }

    // The end-of-line step.
    let ghost body_res = lex_indent(linev, lni, 0, 0, st1, sdv, cdv);
    if *comment == 0 && tokens.len() > 0 {
        let ends_line = match tokens[tokens.len() - 1].token_type {
            Type::EOL => true,
            Type::Dedent => true,
            _ => false,
        };
        if !ends_line {
            let ghost old_toks = tokens.deep_view();
            tokens.push(Token::newline(ln));
            proof {
                assert(tokens.deep_view() =~= old_toks.push(bare_token(Type::EOL, lni)));
                assert(old_toks.last() == body_res.tokens.last());
            }
        }
    }
    proof {
        assert(st_of(*tokens, *indents, *comment, *responses, *flag) == eol_step(body_res, lni));
    }
}

impl Source {
    /// Read the raw lines in, extracting directives from the lines that
    /// begin with the control marker; a control line must carry a space
    /// after the directive name, and the marker itself holds no space.
    pub fn new(path: &str, ctrl: Option<&str>, source_lines: &Vec<String>) -> (s: Source)
        requires
            match ctrl {
                Option::Some(c) => {
                    &&& forall|k: int| 0 <= k < c@.len() ==> c@[k] != ' '
                    &&& forall|j: int|
                        0 <= j < source_lines.deep_view().len() && is_prefix(
                            c@,
                            #[trigger] source_lines.deep_view()[j],
                        ) ==> find_char_from(source_lines.deep_view()[j], ' ', 0) is Some
                },
                Option::None => true,
            },
        ensures
            s@.path == path@,
            s@.lines == spec_masked_lines(source_lines.deep_view(), view_ctrl(ctrl)),
            s@.tokens is None,
            s@.directives == spec_directives(source_lines.deep_view(), view_ctrl(ctrl)),
    {
        let ghost srcv = source_lines.deep_view();
        let mut lines: Vec<String> = Vec::new();
        let mut directives: Vec<(String, String)> = Vec::new();

        match ctrl {
            Option::Some(c) => {
                let n = source_lines.len();
                let mut j: usize = 0;
                while j < n
                    invariant
                        n == srcv.len(),
                        srcv == source_lines.deep_view(),
                        view_ctrl(ctrl) == Option::Some(c@),
                        0 <= j <= n,
                        forall|k: int| 0 <= k < c@.len() ==> c@[k] != ' ',
                        forall|m: int|
                            0 <= m < srcv.len() && is_prefix(c@, #[trigger] srcv[m])
                                ==> find_char_from(srcv[m], ' ', 0) is Some,
                        lines.deep_view() =~= spec_masked_lines(srcv, view_ctrl(ctrl)).subrange(
                            0,
                            j as int,
                        ),
                        directives.deep_view() + spec_directives_from(srcv, c@, j as int)
                            =~= spec_directives_from(srcv, c@, 0),
                    decreases n - j,
                {
                    let line = &source_lines[j];
                    let ghost old_lines = lines.deep_view();
                    let ghost masked = spec_masked_lines(srcv, view_ctrl(ctrl));
                    proof {
                        assert(srcv[j as int] == line@);
                        assert(masked[j as int] == spec_masked_line(srcv[j as int], view_ctrl(ctrl)));
                        assert(masked.len() == srcv.len());
                    }
                    if str_starts_with(line.as_str(), c) {
                        let p = match str_find_char(line.as_str(), ' ') {
                            Option::Some(p) => p,
                            Option::None => {
                                proof {
                                    assert(find_char_from(srcv[j as int], ' ', 0) is Some);
                                }
                                vstd::pervasive::unreached()
                            },
                        };
                        proof {
                            lemma_find_char_bounds(line@, ' ', 0);
                            assert(c@.len() <= p as int) by {
                                if (p as int) < c@.len() {
                                    assert(line@.subrange(0, c@.len() as int)[p as int]
                                        == line@[p as int]);
                                }
                            }
                        }
                        let c_len = c.unicode_len();
                        let line_len = line.as_str().unicode_len();
                        let key = line.as_str().substring_char(c_len, p).to_owned();
                        let value = line.as_str().substring_char(p + 1, line_len).to_owned();
                        let ghost old_dirs = directives.deep_view();
                        directives.push((key, value));
                        lines.push(String::new());
                        proof {
                            assert(directives.deep_view() =~= old_dirs.push((key@, value@)));
                            assert((key@, value@) == spec_directive_of(srcv[j as int], c@));
                            assert(old_dirs.push((key@, value@)) + spec_directives_from(
                                srcv,
                                c@,
                                j + 1,
                            ) =~= old_dirs + (seq![(key@, value@)] + spec_directives_from(
                                srcv,
                                c@,
                                j + 1,
                            )));
                            assert(lines.deep_view() =~= old_lines.push(Seq::<char>::empty()));
                            assert(masked[j as int] == Seq::<char>::empty());
                            assert(masked.subrange(0, j + 1) =~= masked.subrange(0, j as int).push(
                                masked[j as int],
                            ));
                        }
                    } else {
                        lines.push(line.clone());
                        proof {
                            assert(lines.deep_view() =~= old_lines.push(line@));
                            assert(masked[j as int] == line@);
                            assert(masked.subrange(0, j + 1) =~= masked.subrange(0, j as int).push(
                                masked[j as int],
                            ));
                        }
                    }
                    j = j + 1;
                }
            },
            Option::None => {
                let n = source_lines.len();
                let mut j: usize = 0;
                while j < n
                    invariant
                        n == srcv.len(),
                        srcv == source_lines.deep_view(),
                        0 <= j <= n,
                        lines.deep_view() =~= srcv.subrange(0, j as int),
                    decreases n - j,
                {
                    let line = &source_lines[j];
                    let ghost old_lines = lines.deep_view();
                    proof {
                        assert(srcv[j as int] == line@);
                    }
                    lines.push(line.clone());
                    proof {
                        assert(lines.deep_view() =~= old_lines.push(line@));
                        assert(srcv.subrange(0, j + 1) =~= srcv.subrange(0, j as int).push(
                            srcv[j as int],
                        ));
                    }
                    j = j + 1;
                }
            },
        }

        let s = Source {
            path: path.to_owned(),
            lines,
            tokens: Option::None,
            directives,
        };
        proof {
            assert(s@.lines =~= spec_masked_lines(srcv, view_ctrl(ctrl)));
            assert(s@.directives =~= spec_directives(srcv, view_ctrl(ctrl)));
        }
        s
    }

    /// The value of the first directive of the given name, if any.
    pub fn get_directive(&self, name: &str) -> (r: Option<&str>)
        ensures
            match r {
                Option::Some(v) => spec_get_directive(self@.directives, name@) == Option::Some(
                    v@,
                ),
                Option::None => spec_get_directive(self@.directives, name@) is None,
            },
    {
        let n = self.directives.len();
        let mut k: usize = 0;
        while k < n
            invariant
                n == self.directives@.len(),
                0 <= k <= n,
                spec_get_directive(self@.directives, name@) == spec_get_directive_from(
                    self@.directives,
                    name@,
                    k as int,
                ),
            decreases n - k,
        {
            proof {
                assert(self@.directives[k as int] == (
                    self.directives@[k as int].0@,
                    self.directives@[k as int].1@,
                ));
            }
            if str_eq(self.directives[k].0.as_str(), name) {
                return Option::Some(self.directives[k].1.as_str());
            }
            k = k + 1;
        }
        Option::None
    }

    /// Turn the source's lines into its token sequence, storing it on the
    /// source and returning the diagnostics accumulated on the way. The
    /// token sequence and the diagnostics are exactly what the
    /// specification's `spec_tokenize` yields from the lines and the
    /// configured delimiters; in particular the same source always
    /// tokenizes to the same tokens.
    #[verifier::loop_isolation(false)]
    pub fn tokenize(&mut self) -> (out: Outcome<()>)
        ensures
            final(self)@.path == old(self)@.path,
            final(self)@.lines == old(self)@.lines,
            final(self)@.directives == old(self)@.directives,
            ({
                let st = spec_tokenize(
                    old(self)@.lines,
                    spec_string_delims(old(self)@.directives),
                    spec_comment_delims(old(self)@.directives),
                );
                &&& final(self)@.tokens == Option::Some(st.tokens)
                &&& crate::error::spec_responses(out) == st.responses
                &&& (out.response is None <==> st.responses.len() == 0)
                &&& out.value == ()
            }),
    {
        let ghost linesv = self@.lines;
        let ghost dirsv = self@.directives;

        let string_d: Vec<String> = match self.get_directive("string") {
            Option::Some(v) => split_ws(v),
            Option::None => Vec::new(),
        };
        let comment_d: Vec<String> = match self.get_directive("comment") {
            Option::Some(v) => split_ws(v),
            Option::None => Vec::new(),
        };
        let ghost sdv = string_d.deep_view();
        let ghost cdv = comment_d.deep_view();
        proof {
            assert(sdv =~~= spec_string_delims(dirsv));
            assert(cdv =~~= spec_comment_delims(dirsv));
        }

        let mut tokens: Vec<Token> = Vec::new();
        let mut indents: Vec<usize> = Vec::new();
        let mut comment: usize = 0;
        let mut responses: Vec<Response> = Vec::new();
        let mut flag: bool = false;
        proof {
            assert(tokens.deep_view() =~= Seq::<SpecToken>::empty());
            assert(indents_view(indents@) =~= Seq::<int>::empty());
            assert(responses.deep_view() =~= Seq::<crate::error::SpecResponse>::empty());
            assert(st_of(tokens, indents, comment, responses, flag) == lex_init());
        }

        let nlines = self.lines.len();
        let mut l: usize = 0;
        while l < nlines
            invariant
                0 <= l <= nlines,
                lex_lines(
                    linesv,
                    sdv,
                    cdv,
                    l as int,
                    st_of(tokens, indents, comment, responses, flag),
                ) == lex_lines(linesv, sdv, cdv, 0, lex_init()),
            decreases nlines - l,
        {
            let ghost st_before = st_of(tokens, indents, comment, responses, flag);
            proof {
                assert(linesv[l as int] == self.lines@[l as int]@);
            }
            lex_one_line(
                &self.lines[l],
                l,
                &mut tokens,
                &mut indents,
                &mut comment,
                &mut responses,
                &mut flag,
                &string_d,
                &comment_d,
            );
            proof {
                assert(st_of(tokens, indents, comment, responses, flag) == lex_line(
                    linesv[l as int],
                    l + 1,
                    st_before,
                    sdv,
                    cdv,
                ));
            }
            l = l + 1;
        }
        let ghost st_end = st_of(tokens, indents, comment, responses, flag);
        proof {
            assert(st_end == lex_lines(linesv, sdv, cdv, 0, lex_init()));
        }

        // End of input: an unterminated block comment is an error, open
        // indentation levels close, and one EOF token ends the stream.
        if comment != 0 {
            let ghost old_rs = responses.deep_view();
            responses.push(
                Response::Error(
                    Option::Some(PartialToken::Pos { line: comment, slice: (comment, comment) }),
                    "unterminated block comment".to_owned(),
                ),
            );
            proof {
                assert(responses.deep_view() =~= old_rs.push(
                    crate::lex::error_at(
                        comment as int,
                        comment as int,
                        comment as int,
                        "unterminated block comment"@,
                    ),
                ));
            }
        }
        let ghost st_err = st_of(tokens, indents, comment, responses, flag);
        while indents.len() > 0
            invariant
                drain_dedents(st_of(tokens, indents, comment, responses, flag), nlines as int)
                    == drain_dedents(st_err, nlines as int),
            decreases indents@.len(),
        {
            let ghost st_p = st_of(tokens, indents, comment, responses, flag);
            let ghost old_toks = tokens.deep_view();
            let ghost old_inds = indents@;
            indents.pop();
            tokens.push(Token::dedent(nlines));
            proof {
                assert(tokens.deep_view() =~= old_toks.push(
                    bare_token(Type::Dedent, nlines as int),
                ));
                assert(indents_view(indents@) =~= indents_view(old_inds).drop_last());
                assert(st_of(tokens, indents, comment, responses, flag) == (LexState {
                    tokens: st_p.tokens.push(bare_token(Type::Dedent, nlines as int)),
                    indents: st_p.indents.drop_last(),
                    ..st_p
                }));
            }
        }
        let ghost st_drained = st_of(tokens, indents, comment, responses, flag);
        proof {
            assert(drain_dedents(st_drained, nlines as int) == st_drained);
            assert(st_drained == drain_dedents(st_err, nlines as int));
        }
        let ghost old_toks = tokens.deep_view();
        tokens.push(Token::eof(nlines));
        proof {
            assert(tokens.deep_view() =~= old_toks.push(bare_token(Type::EOF, nlines as int)));
            assert(st_of(tokens, indents, comment, responses, flag) == finalize(
                st_end,
                nlines as int,
            ));
        }

        let ghost st_fin = st_of(tokens, indents, comment, responses, flag);
        self.tokens = Option::Some(tokens);
        proof {
            assert(self@.tokens == Option::Some(st_fin.tokens));
        }
        let n_res = responses.len();
        if n_res > 0 {
            let out = Outcome::new((), Option::Some(responses));
            proof {
                assert(crate::error::spec_responses(out) == st_fin.responses);
            }
            out
        } else {
            let out = Outcome::new((), Option::None);
            proof {
                assert(st_fin.responses.len() == 0);
                assert(crate::error::spec_responses(out) =~= st_fin.responses);
            }
            out
        }
    }
}

} // verus!
