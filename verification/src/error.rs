use vstd::prelude::*;
use crate::token::{PartialToken, SpecToken, Token, Type};

verus! {

/// The mathematical image of a `PartialToken`.
pub ghost enum SpecPartial {
    Type(Type),
    Lexeme(Seq<char>),
    Pair(Type, Seq<char>),
    Pos { line: int, start: int, end: int },
    PosLexeme { line: int, start: int, end: int, lexeme: Seq<char> },
    Full(SpecToken),
}

impl View for PartialToken {
    type V = SpecPartial;

    open spec fn view(&self) -> SpecPartial {
        match *self {
            PartialToken::Type(t) => SpecPartial::Type(t),
            PartialToken::Lexeme(l) => SpecPartial::Lexeme(l@),
            PartialToken::Pair(t, l) => SpecPartial::Pair(t, l@),
            PartialToken::Pos { line, slice } => SpecPartial::Pos {
                line: line as int,
                start: slice.0 as int,
                end: slice.1 as int,
            },
            PartialToken::PosLexeme { line, slice, lexeme } => SpecPartial::PosLexeme {
                line: line as int,
                start: slice.0 as int,
                end: slice.1 as int,
                lexeme: lexeme@,
            },
            PartialToken::Full(t) => SpecPartial::Full(t@),
        }
    }
}

/// One diagnostic entry: a severity, an optional source position for
/// underlining, and a message.
#[derive(Debug)]
pub enum Response {
    Note(Option<PartialToken>, String),
    Warning(Option<PartialToken>, String),
    Error(Option<PartialToken>, String),
}

/// The mathematical image of a `Response`.
pub ghost enum SpecResponse {
    Note(Option<SpecPartial>, Seq<char>),
    Warning(Option<SpecPartial>, Seq<char>),
    Error(Option<SpecPartial>, Seq<char>),
}

pub open spec fn view_partial_opt(p: Option<PartialToken>) -> Option<SpecPartial> {
    match p {
        Option::Some(t) => Option::Some(t@),
        Option::None => Option::None,
    }
}

impl View for Response {
    type V = SpecResponse;

    open spec fn view(&self) -> SpecResponse {
        match *self {
            Response::Note(p, m) => SpecResponse::Note(view_partial_opt(p), m@),
            Response::Warning(p, m) => SpecResponse::Warning(view_partial_opt(p), m@),
            Response::Error(p, m) => SpecResponse::Error(view_partial_opt(p), m@),
        }
    }
}

impl DeepView for Response {
    type V = SpecResponse;

    open spec fn deep_view(&self) -> SpecResponse {
        self.view()
    }
}

impl Clone for Response {
    fn clone(&self) -> (r: Response)
        ensures
            r@ == self@,
    {
        match self {
            Response::Note(p, m) => Response::Note(clone_partial_opt(p), m.clone()),
            Response::Warning(p, m) => Response::Warning(clone_partial_opt(p), m.clone()),
            Response::Error(p, m) => Response::Error(clone_partial_opt(p), m.clone()),
        }
    }
}

fn clone_partial_opt(p: &Option<PartialToken>) -> (r: Option<PartialToken>)
    ensures
        view_partial_opt(r) == view_partial_opt(*p),
{
    match p {
        Option::Some(t) => Option::Some(t.clone()),
        Option::None => Option::None,
    }
}

/// Whether a diagnostic list holds at least one `Error` entry; an outcome
/// carrying one is failed.
pub open spec fn spec_has_error(rs: Seq<SpecResponse>) -> bool {
    exists|i: int| 0 <= i < rs.len() && rs[i] is Error
}

/// A stage's produced value together with the diagnostics it accumulated;
/// `None` stands for a clean run.
#[derive(Debug, Clone)]
pub struct Outcome<T> {
    pub value: T,
    pub response: Option<Vec<Response>>,
}

/// The diagnostics carried by an outcome, as a plain sequence.
pub open spec fn spec_responses<T>(o: Outcome<T>) -> Seq<SpecResponse> {
    match o.response {
        Option::Some(v) => v.deep_view(),
        Option::None => Seq::empty(),
    }
}

impl<T: Clone> Outcome<T> {
    pub fn new(value: T, response: Option<Vec<Response>>) -> (o: Outcome<T>)
        ensures
            o.value == value,
            o.response == response,
    {
        Outcome { value, response }
    }

    pub fn new_pos(value: T, response: Option<Vec<Response>>) -> (o: Outcome<T>)
        ensures
            o.value == value,
            o.response == response,
    {
        Outcome { value, response }
    }

    /// Whether this outcome failed: it carries at least one `Error` entry.
    pub fn is_error(&self) -> (r: bool)
        ensures
            r == spec_has_error(spec_responses(*self)),
    {
        match &self.response {
            Option::Some(rs) => {
                let n = rs.len();
                let mut i: usize = 0;
                while i < n
                    invariant
                        self.response == Option::Some(*rs),
                        n == rs@.len(),
                        0 <= i <= n,
                        forall|k: int| 0 <= k < i ==> !(#[trigger] rs@[k]@ is Error),
                    decreases n - i,
                {
                    if let Response::Error(_, _) = &rs[i] {
                        proof {
                            assert(self.response == Option::Some(*rs));
                            let sr = spec_responses(*self);
                            assert(sr == rs.deep_view());
                            assert(rs.deep_view()[i as int] == rs@[i as int].deep_view());
                            assert(sr[i as int] is Error);
                        }
                        return true;
                    }
                    i = i + 1;
                }
                false
            },
            Option::None => false,
        }
    }

    /// The produced value, cloned out of the outcome.
    pub fn unwrap(&self) -> (v: T)
        ensures
            vstd::pervasive::cloned(self.value, v),
    {
        self.value.clone()
    }
}

/// A lexer failure of the oldest, simplest shape: a constant message and an
/// optional position.
#[derive(Debug)]
pub enum TokenizerErrorValue {
    Constant(String),
}

#[derive(Debug)]
pub struct TokenizerError {
    pub value: TokenizerErrorValue,
    pub position: Option<(usize, usize)>,
}

impl TokenizerError {
    pub fn new(value: &str) -> (e: TokenizerError)
        ensures
            e.value matches TokenizerErrorValue::Constant(m) && m@ == value@,
            e.position is None,
    {
        TokenizerError { value: TokenizerErrorValue::Constant(value.to_owned()), position: Option::None }
    }

    pub fn new_pos(position: (usize, usize), value: &str) -> (e: TokenizerError)
        ensures
            e.value matches TokenizerErrorValue::Constant(m) && m@ == value@,
            e.position == Option::Some(position),
    {
        TokenizerError {
            value: TokenizerErrorValue::Constant(value.to_owned()),
            position: Option::Some(position),
        }
    }
}

} // verus!
