use vstd::prelude::*;

verus! {

// ---------------------------------------------------------------------------
// Character classification.
//
// The lexer classifies characters exactly as the standard library does, so
// the four predicates below are taken as names for what the standard library
// computes; each is applied by exactly one trusted wrapper.
// ---------------------------------------------------------------------------

pub uninterp spec fn is_space_char(c: char) -> bool;

pub uninterp spec fn is_digit_char(c: char) -> bool;

pub uninterp spec fn is_alpha_char(c: char) -> bool;

pub uninterp spec fn is_alnum_char(c: char) -> bool;

/// Relies on char::is_whitespace: whether the character has the Unicode
/// White_Space property; the answer depends on the character alone.
#[verifier::external_body]
pub(crate) fn char_is_whitespace(c: char) -> (r: bool)
    ensures
        r == is_space_char(c),
{
    c.is_whitespace()
}

/// Relies on char::is_numeric: whether the character is in a Unicode numeric
/// category; the answer depends on the character alone.
#[verifier::external_body]
pub(crate) fn char_is_numeric(c: char) -> (r: bool)
    ensures
        r == is_digit_char(c),
{
    c.is_numeric()
}

/// Relies on char::is_alphabetic: whether the character is in a Unicode
/// alphabetic category; the answer depends on the character alone.
#[verifier::external_body]
pub(crate) fn char_is_alphabetic(c: char) -> (r: bool)
    ensures
        r == is_alpha_char(c),
{
    c.is_alphabetic()
}

/// Relies on char::is_alphanumeric: whether the character is alphabetic or
/// numeric; the answer depends on the character alone.
#[verifier::external_body]
pub(crate) fn char_is_alphanumeric(c: char) -> (r: bool)
    ensures
        r == is_alnum_char(c),
{
    c.is_alphanumeric()
}

// ---------------------------------------------------------------------------
// Case folding.
// ---------------------------------------------------------------------------

pub uninterp spec fn upper_of(s: Seq<char>) -> Seq<char>;

pub uninterp spec fn lower_of(s: Seq<char>) -> Seq<char>;

/// Relies on str::to_uppercase: the Unicode uppercase image of the string,
/// a function of its characters alone.
#[verifier::external_body]
pub(crate) fn str_to_uppercase(s: &str) -> (r: String)
    ensures
        r@ == upper_of(s@),
{
    s.to_uppercase()
}

/// Relies on str::to_lowercase: the Unicode lowercase image of the string,
/// a function of its characters alone.
#[verifier::external_body]
pub(crate) fn str_to_lowercase(s: &str) -> (r: String)
    ensures
        r@ == lower_of(s@),
{
    s.to_lowercase()
}

/// A string counts as upper case when folding it to upper case leaves it
/// unchanged, and likewise for lower case.
pub open spec fn spec_is_uppercase(s: Seq<char>) -> bool {
    upper_of(s) == s
}

pub open spec fn spec_is_lowercase(s: Seq<char>) -> bool {
    lower_of(s) == s
}

pub(crate) fn str_is_uppercase(s: &str) -> (r: bool)
    ensures
        r == spec_is_uppercase(s@),
{
    let u = str_to_uppercase(s);
    let e = u.as_str();
    str_eq(e, s)
}

pub(crate) fn str_is_lowercase(s: &str) -> (r: bool)
    ensures
        r == spec_is_lowercase(s@),
{
    let u = str_to_lowercase(s);
    let e = u.as_str();
    str_eq(e, s)
}

/// Two string slices are equal exactly when they hold the same characters.
pub(crate) fn str_eq(a: &str, b: &str) -> (r: bool)
    ensures
        r == (a@ == b@),
{
    let na = a.unicode_len();
    let nb = b.unicode_len();
    if na != nb {
        return false;
    }
    let mut i: usize = 0;
    while i < na
        invariant
            na == a@.len(),
            na == b@.len(),
            0 <= i <= na,
            forall|k: int| 0 <= k < i ==> a@[k] == b@[k],
        decreases na - i,
    {
        if a.get_char(i) != b.get_char(i) {
            assert(a@[i as int] != b@[i as int]);
            return false;
        }
        i = i + 1;
    }
    proof {
        assert(a@ =~= b@);
    }
    true
}

// ---------------------------------------------------------------------------
// Small string utilities the lexer and the source reader build on.
// ---------------------------------------------------------------------------

/// The characters of a string, as a vector.
pub(crate) fn line_chars(s: &str) -> (v: Vec<char>)
    ensures
        v@ == s@,
{
    let n = s.unicode_len();
    let mut v: Vec<char> = Vec::new();
    let mut i: usize = 0;
    while i < n
        invariant
            n == s@.len(),
            0 <= i <= n,
            v@ =~= s@.subrange(0, i as int),
        decreases n - i,
    {
        v.push(s.get_char(i));
        i = i + 1;
    }
    proof {
        assert(v@ =~= s@);
    }
    v
}

/// Whether `p` stands at the start of `s`.
pub open spec fn is_prefix(p: Seq<char>, s: Seq<char>) -> bool {
    p.len() <= s.len() && s.subrange(0, p.len() as int) == p
}

pub(crate) fn str_starts_with(s: &str, p: &str) -> (r: bool)
    ensures
        r == is_prefix(p@, s@),
{
    let np = p.unicode_len();
    let ns = s.unicode_len();
    if np > ns {
        return false;
    }
    let mut i: usize = 0;
    while i < np
        invariant
            np == p@.len(),
            ns == s@.len(),
            np <= ns,
            0 <= i <= np,
            forall|k: int| 0 <= k < i ==> s@[k] == p@[k],
        decreases np - i,
    {
        if s.get_char(i) != p.get_char(i) {
            assert(s@.subrange(0, np as int)[i as int] != p@[i as int]);
            return false;
        }
        i = i + 1;
    }
    proof {
        assert(s@.subrange(0, np as int) =~= p@);
    }
    true
}

/// The first position of `c` in `s` from index `i` on.
pub open spec fn find_char_from(s: Seq<char>, c: char, i: int) -> Option<int>
    decreases s.len() - i,
{
    if i < 0 || i >= s.len() {
        Option::None
    } else if s[i] == c {
        Option::Some(i)
    } else {
        find_char_from(s, c, i + 1)
    }
}

pub proof fn lemma_find_char_bounds(s: Seq<char>, c: char, i: int)
    requires
        find_char_from(s, c, i) is Some,
    ensures
        ({
            let p = find_char_from(s, c, i)->0;
            &&& i <= p < s.len()
            &&& s[p] == c
            &&& forall|k: int| i <= k < p ==> s[k] != c
        }),
    decreases s.len() - i,
{
    if 0 <= i < s.len() && s[i] != c {
        lemma_find_char_bounds(s, c, i + 1);
    }
}

pub(crate) fn str_find_char(s: &str, c: char) -> (r: Option<usize>)
    ensures
        match r {
            Option::Some(p) => find_char_from(s@, c, 0) == Option::Some(p as int),
            Option::None => find_char_from(s@, c, 0) is None,
        },
{
    let n = s.unicode_len();
    let mut i: usize = 0;
    while i < n
        invariant
            n == s@.len(),
            0 <= i <= n,
            find_char_from(s@, c, 0) == find_char_from(s@, c, i as int),
        decreases n - i,
    {
        if s.get_char(i) == c {
            return Option::Some(i);
        }
        i = i + 1;
    }
    Option::None
}

/// The position just past the run of non-whitespace characters beginning
/// at `j`.
pub open spec fn nonspace_run_end(s: Seq<char>, j: int) -> int
    decreases s.len() - j,
{
    if 0 <= j < s.len() && !is_space_char(s[j]) {
        nonspace_run_end(s, j + 1)
    } else {
        j
    }
}

pub proof fn lemma_nonspace_run_end(s: Seq<char>, j: int)
    requires
        0 <= j <= s.len(),
    ensures
        j <= nonspace_run_end(s, j) <= s.len(),
    decreases s.len() - j,
{
    if 0 <= j < s.len() && !is_space_char(s[j]) {
        lemma_nonspace_run_end(s, j + 1);
    }
}

/// The whitespace-separated pieces of `s`, from index `i` on: what the
/// standard split by whitespace yields.
pub open spec fn spec_split_ws_from(s: Seq<char>, i: int) -> Seq<Seq<char>>
    decreases s.len() - i,
    via spec_split_ws_from_decreases
{
    if i < 0 || i >= s.len() {
        Seq::empty()
    } else if is_space_char(s[i]) {
        spec_split_ws_from(s, i + 1)
    } else {
        let j = nonspace_run_end(s, i);
        seq![s.subrange(i, j)] + spec_split_ws_from(s, j)
    }
}

#[via_fn]
proof fn spec_split_ws_from_decreases(s: Seq<char>, i: int) {
    if 0 <= i < s.len() && !is_space_char(s[i]) {
        lemma_nonspace_run_end(s, i + 1);
        assert(nonspace_run_end(s, i) == nonspace_run_end(s, i + 1));
    }
}

pub open spec fn spec_split_ws(s: Seq<char>) -> Seq<Seq<char>> {
    spec_split_ws_from(s, 0)
}

/// Split a string at whitespace, as the standard library's whitespace split
/// does; empty pieces never occur.
pub(crate) fn split_ws(s: &str) -> (v: Vec<String>)
    ensures
        v.deep_view() == spec_split_ws(s@),
{
    let n = s.unicode_len();
    let mut v: Vec<String> = Vec::new();
    let mut i: usize = 0;
    while i < n
        invariant
            n == s@.len(),
            0 <= i <= n,
            v.deep_view() + spec_split_ws_from(s@, i as int) =~= spec_split_ws(s@),
        decreases n - i,
    {
        if char_is_whitespace(s.get_char(i)) {
            i = i + 1;
        } else {
            let mut j: usize = i + 1;
            while j < n
                invariant
                    n == s@.len(),
                    i < j <= n,
                    nonspace_run_end(s@, i as int) == nonspace_run_end(s@, j as int),
                    !is_space_char(s@[i as int]),
                ensures
                    nonspace_run_end(s@, i as int) == j as int,
                decreases n - j,
            {
                if char_is_whitespace(s.get_char(j)) {
                    break;
                }
                j = j + 1;
            }
            let piece = s.substring_char(i, j).to_owned();
            let ghost old_v = v.deep_view();
            v.push(piece);
            proof {
                assert(v.deep_view() =~= old_v.push(piece@));
                assert(old_v.push(piece@) + spec_split_ws_from(s@, j as int) =~= old_v + (seq![
                    piece@,
                ] + spec_split_ws_from(s@, j as int)));
                assert(seq![piece@] + spec_split_ws_from(s@, j as int) == spec_split_ws_from(
                    s@,
                    i as int,
                ));
            }
            i = j;
        }
    }
    proof {
        assert(v.deep_view() =~= spec_split_ws(s@));
    }
    v
}

/// Case tests on owned and borrowed strings alike, as the rest of the
/// library wants to ask them.
pub trait StringExtras {
    spec fn chars(&self) -> Seq<char>;

    fn is_uppercase(&self) -> (r: bool)
        ensures
            r == spec_is_uppercase(self.chars()),
    ;

    fn is_lowercase(&self) -> (r: bool)
        ensures
            r == spec_is_lowercase(self.chars()),
    ;
}

impl StringExtras for String {
    open spec fn chars(&self) -> Seq<char> {
        self@
    }

    fn is_uppercase(&self) -> (r: bool) {
        str_is_uppercase(self.as_str())
    }

    fn is_lowercase(&self) -> (r: bool) {
        str_is_lowercase(self.as_str())
    }
}

impl StringExtras for str {
    open spec fn chars(&self) -> Seq<char> {
        self@
    }

    fn is_uppercase(&self) -> (r: bool) {
        str_is_uppercase(self)
    }

    fn is_lowercase(&self) -> (r: bool) {
        str_is_lowercase(self)
    }
}

} // verus!
