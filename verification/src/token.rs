use vstd::prelude::*;

verus! {

/// The kinds of token the lexer can produce.
#[derive(Clone, Copy, Debug, PartialEq, Eq, Structural)]
pub enum Type {
    Number,
    String,
    Word,
    Symbol,
    Indent,
    Dedent,
    EOL,
    EOF,
}

/// The token kind a type name in a grammar pattern denotes, given the
/// upper-case image of the name.
pub open spec fn spec_type_from_str(u: Seq<char>) -> Option<Type> {
    if u == "NUMBER"@ {
        Option::Some(Type::Number)
    } else if u == "STRING"@ {
        Option::Some(Type::String)
    } else if u == "SYMBOL"@ {
        Option::Some(Type::Symbol)
    } else if u == "WORD"@ {
        Option::Some(Type::Word)
    } else if u == "INDENT"@ {
        Option::Some(Type::Indent)
    } else if u == "DEDENT"@ {
        Option::Some(Type::Dedent)
    } else if u == "EOL"@ {
        Option::Some(Type::EOL)
    } else if u == "EOF"@ {
        Option::Some(Type::EOF)
    } else {
        Option::None
    }
}

/// The display name of each token kind.
pub open spec fn spec_type_name(t: Type) -> Seq<char> {
    match t {
        Type::Number => "Number"@,
        Type::String => "String"@,
        Type::Symbol => "Symbol"@,
        Type::Word => "Word"@,
        Type::Indent => "Indent"@,
        Type::Dedent => "Dedent"@,
        Type::EOL => "EOL"@,
        Type::EOF => "EOF"@,
    }
}

impl Type {
    /// The kind a name denotes, folding the name to upper case first; an
    /// unknown name denotes no kind.
    pub fn from_str(s: &str) -> (r: Option<Type>)
        ensures
            r == spec_type_from_str(crate::extras::upper_of(s@)),
    {
        let u = crate::extras::str_to_uppercase(s);
        let e = u.as_str();
        if crate::extras::str_eq(e, "NUMBER") {
            Option::Some(Type::Number)
        } else if crate::extras::str_eq(e, "STRING") {
            Option::Some(Type::String)
        } else if crate::extras::str_eq(e, "SYMBOL") {
            Option::Some(Type::Symbol)
        } else if crate::extras::str_eq(e, "WORD") {
            Option::Some(Type::Word)
        } else if crate::extras::str_eq(e, "INDENT") {
            Option::Some(Type::Indent)
        } else if crate::extras::str_eq(e, "DEDENT") {
            Option::Some(Type::Dedent)
        } else if crate::extras::str_eq(e, "EOL") {
            Option::Some(Type::EOL)
        } else if crate::extras::str_eq(e, "EOF") {
            Option::Some(Type::EOF)
        } else {
            Option::None
        }
    }

    /// The display name of this kind.
    pub fn to_str(&self) -> (r: &'static str)
        ensures
            r@ == spec_type_name(*self),
    {
        match *self {
            Type::Number => "Number",
            Type::String => "String",
            Type::Symbol => "Symbol",
            Type::Word => "Word",
            Type::Indent => "Indent",
            Type::Dedent => "Dedent",
            Type::EOL => "EOL",
            Type::EOF => "EOF",
        }
    }
}

/// The mathematical image of a token: its kind, 1-based line number,
/// character span within the line, and lexeme (for the kinds that carry one).
pub ghost struct SpecToken {
    pub token_type: Type,
    pub line: int,
    pub start: int,
    pub end: int,
    pub lexeme: Option<Seq<char>>,
}

/// A token of the flat stream the lexer produces. `Indent`, `Dedent`,
/// `EOL` and `EOF` carry no lexeme; the other kinds do.
#[derive(Debug)]
pub struct Token {
    pub token_type: Type,
    pub line: usize,
    pub slice: (usize, usize),
    pub lexeme: Option<String>,
}

impl View for Token {
    type V = SpecToken;

    open spec fn view(&self) -> SpecToken {
        SpecToken {
            token_type: self.token_type,
            line: self.line as int,
            start: self.slice.0 as int,
            end: self.slice.1 as int,
            lexeme: match self.lexeme {
                Option::Some(s) => Option::Some(s@),
                Option::None => Option::None,
            },
        }
    }
}

impl DeepView for Token {
    type V = SpecToken;

    open spec fn deep_view(&self) -> SpecToken {
        self.view()
    }
}

impl Clone for Token {
    fn clone(&self) -> (t: Token)
        ensures
            t@ == self@,
    {
        Token {
            token_type: self.token_type,
            line: self.line,
            slice: (self.slice.0, self.slice.1),
            lexeme: match &self.lexeme {
                Option::Some(s) => Option::Some(s.clone()),
                Option::None => Option::None,
            },
        }
    }
}

/// A description of an expected token: by kind alone, by lexeme alone, or by
/// both at once; the remaining forms carry a bare source position for
/// diagnostics and never match a token.
#[derive(Debug)]
pub enum PartialToken {
    Type(Type),
    Lexeme(String),
    Pair(Type, String),
    Pos { line: usize, slice: (usize, usize) },
    PosLexeme { line: usize, slice: (usize, usize), lexeme: String },
    Full(Token),
}

impl Clone for PartialToken {
    fn clone(&self) -> (p: PartialToken)
        ensures
            p == self,
    {
        match self {
            PartialToken::Type(t) => PartialToken::Type(*t),
            PartialToken::Lexeme(l) => PartialToken::Lexeme(l.clone()),
            PartialToken::Pair(t, l) => PartialToken::Pair(*t, l.clone()),
            PartialToken::Pos { line, slice } => PartialToken::Pos {
                line: *line,
                slice: (slice.0, slice.1),
            },
            PartialToken::PosLexeme { line, slice, lexeme } => PartialToken::PosLexeme {
                line: *line,
                slice: (slice.0, slice.1),
                lexeme: lexeme.clone(),
            },
            PartialToken::Full(t) => PartialToken::Full(clone_token_exact(t)),
        }
    }
}

fn clone_token_exact(t: &Token) -> (r: Token)
    ensures
        r == t,
{
    Token {
        token_type: t.token_type,
        line: t.line,
        slice: (t.slice.0, t.slice.1),
        lexeme: match &t.lexeme {
            Option::Some(s) => Option::Some(s.clone()),
            Option::None => Option::None,
        },
    }
}

/// What it means for a concrete token to answer a `PartialToken` description.
pub open spec fn spec_token_matches(t: SpecToken, p: PartialToken) -> bool {
    match p {
        PartialToken::Type(k) => t.token_type == k,
        PartialToken::Lexeme(l) => t.lexeme == Option::Some(l@),
        PartialToken::Pair(k, l) => t.lexeme == Option::Some(l@) && t.token_type == k,
        _ => false,
    }
}

impl Token {
    pub fn new(token_type: Type, line: usize, slice: (usize, usize), lexeme: Option<String>) -> (t: Token)
        ensures
            t@ == (SpecToken {
                token_type,
                line: line as int,
                start: slice.0 as int,
                end: slice.1 as int,
                lexeme: match lexeme {
                    Option::Some(s) => Option::Some(s@),
                    Option::None => Option::None::<Seq<char>>,
                },
            }),
    {
        Token { token_type, line, slice, lexeme }
    }

    pub fn number(line: usize, slice: (usize, usize), lexeme: String) -> (t: Token)
        ensures
            t@.token_type == Type::Number && t@.line == line && t@.start == slice.0
                && t@.end == slice.1 && t@.lexeme == Option::Some(lexeme@),
    {
        Token::new(Type::Number, line, slice, Option::Some(lexeme))
    }

    pub fn string(line: usize, slice: (usize, usize), lexeme: String) -> (t: Token)
        ensures
            t@.token_type == Type::String && t@.line == line && t@.start == slice.0
                && t@.end == slice.1 && t@.lexeme == Option::Some(lexeme@),
    {
        Token::new(Type::String, line, slice, Option::Some(lexeme))
    }

    pub fn word(line: usize, slice: (usize, usize), lexeme: String) -> (t: Token)
        ensures
            t@.token_type == Type::Word && t@.line == line && t@.start == slice.0
                && t@.end == slice.1 && t@.lexeme == Option::Some(lexeme@),
    {
        Token::new(Type::Word, line, slice, Option::Some(lexeme))
    }

    pub fn symbol(line: usize, slice: (usize, usize), lexeme: String) -> (t: Token)
        ensures
            t@.token_type == Type::Symbol && t@.line == line && t@.start == slice.0
                && t@.end == slice.1 && t@.lexeme == Option::Some(lexeme@),
    {
        Token::new(Type::Symbol, line, slice, Option::Some(lexeme))
    }

    pub fn indent(line: usize) -> (t: Token)
        ensures
            t@ == (SpecToken {
                token_type: Type::Indent,
                line: line as int,
                start: 0,
                end: 0,
                lexeme: Option::None::<Seq<char>>,
            }),
    {
        Token::new(Type::Indent, line, (0, 0), Option::None)
    }

    pub fn dedent(line: usize) -> (t: Token)
        ensures
            t@ == (SpecToken {
                token_type: Type::Dedent,
                line: line as int,
                start: 0,
                end: 0,
                lexeme: Option::None::<Seq<char>>,
            }),
    {
        Token::new(Type::Dedent, line, (0, 0), Option::None)
    }

    pub fn newline(line: usize) -> (t: Token)
        ensures
            t@ == (SpecToken {
                token_type: Type::EOL,
                line: line as int,
                start: 0,
                end: 0,
                lexeme: Option::None::<Seq<char>>,
            }),
    {
        Token::new(Type::EOL, line, (0, 0), Option::None)
    }

    pub fn eof(line: usize) -> (t: Token)
        ensures
            t@ == (SpecToken {
                token_type: Type::EOF,
                line: line as int,
                start: 0,
                end: 0,
                lexeme: Option::None::<Seq<char>>,
            }),
    {
        Token::new(Type::EOF, line, (0, 0), Option::None)
    }

    /// Whether this token answers the given description.
    pub fn eq(&self, rhs: &PartialToken) -> (r: bool)
        ensures
            r == spec_token_matches(self@, *rhs),
    {
        match rhs {
            PartialToken::Type(t) => self.token_type == *t,
            PartialToken::Lexeme(l) => match &self.lexeme {
                Option::Some(s) => *s == *l,
                Option::None => false,
            },
            PartialToken::Pair(t, l) => {
                let lex_ok = match &self.lexeme {
                    Option::Some(s) => *s == *l,
                    Option::None => false,
                };
                lex_ok && self.token_type == *t
            },
            _ => false,
        }
    }
}

/// A cursor over a borrowed token buffer; every parsing session owns
/// exactly one, and backtracking saves and restores `current`.
#[derive(Debug)]
pub struct TokenIterator<'t> {
    pub tokens: &'t Vec<Token>,
    pub current: usize,
}

/// Whether the tokens from position `cur` of `ts` answer the descriptions
/// `ps`, one each in order, without running past the end of `ts`.
pub open spec fn spec_check(ts: Seq<Token>, cur: int, ps: Seq<PartialToken>) -> bool {
    &&& cur + ps.len() <= ts.len()
    &&& forall|i: int| 0 <= i < ps.len() ==> spec_token_matches(#[trigger] ts[cur + i]@, ps[i])
}

impl<'t> TokenIterator<'t> {
    pub fn new(tokens: &'t Vec<Token>) -> (it: TokenIterator<'t>)
        ensures
            it.tokens == tokens,
            it.current == 0,
    {
        TokenIterator { tokens, current: 0 }
    }

    /// The token `offset` places past the cursor, if it exists.
    pub fn get(&self, offset: usize) -> (r: Option<&'t Token>)
        ensures
            self.current + offset < self.tokens@.len() ==> r == Option::Some(
                &self.tokens@[self.current + offset],
            ),
            self.current + offset >= self.tokens@.len() ==> r is None,
    {
        if self.current < self.tokens.len() && offset < self.tokens.len() - self.current {
            Option::Some(&self.tokens[self.current + offset])
        } else {
            Option::None
        }
    }

    /// Advance the cursor `offset` places, clamping to the last token.
    pub fn eat(&mut self, offset: usize)
        requires
            old(self).current + offset <= old(self).tokens@.len() || old(
                self,
            ).tokens@.len() > 0,
        ensures
            final(self).tokens == old(self).tokens,
            final(self).current == if old(self).current + offset <= old(self).tokens@.len() {
                old(self).current + offset
            } else {
                old(self).tokens@.len() - 1
            },
    {
        if offset <= self.tokens.len() && self.current <= self.tokens.len() - offset {
            self.current = self.current + offset;
        } else {
            self.current = self.tokens.len() - 1;
        }
    }

    /// Yield the token under the cursor and move past it.
    pub fn next(&mut self) -> (r: Option<&'t Token>)
        ensures
            final(self).tokens == old(self).tokens,
            old(self).current < old(self).tokens@.len() ==> {
                &&& final(self).current == old(self).current + 1
                &&& r == Option::Some(&old(self).tokens@[old(self).current as int])
            },
            old(self).current >= old(self).tokens@.len() ==> {
                &&& final(self).current == old(self).current
                &&& r is None
            },
    {
        if self.current >= self.tokens.len() {
            Option::None
        } else {
            self.current = self.current + 1;
            Option::Some(&self.tokens[self.current - 1])
        }
    }

    /// Whether the tokens at the cursor answer the given descriptions,
    /// without moving the cursor.
    pub fn check(&self, tokens: &[PartialToken]) -> (r: bool)
        ensures
            r == spec_check(self.tokens@, self.current as int, tokens@),
    {
        let n = self.tokens.len();
        if tokens.len() > n || self.current > n - tokens.len() {
            return false;
        }
        let mut offset: usize = 0;
        while offset < tokens.len()
            invariant
                n == self.tokens@.len(),
                self.current + tokens@.len() <= self.tokens@.len(),
                0 <= offset <= tokens@.len(),
                forall|i: int|
                    0 <= i < offset ==> spec_token_matches(
                        #[trigger] self.tokens@[self.current + i]@,
                        tokens@[i],
                    ),
            decreases tokens@.len() - offset,
        {
            if !self.tokens[self.current + offset].eq(&tokens[offset]) {
                return false;
            }
            offset = offset + 1;
        }
        true
    }

    /// `check`, and on success the cursor moves past the matched tokens.
    pub fn match_with(&mut self, tokens: &[PartialToken]) -> (r: bool)
        ensures
            final(self).tokens == old(self).tokens,
            r == spec_check(old(self).tokens@, old(self).current as int, tokens@),
            r ==> final(self).current == old(self).current + tokens@.len(),
            !r ==> final(self).current == old(self).current,
    {
        let n = self.tokens.len();
        if self.check(tokens) {
            self.current = self.current + tokens.len();
            true
        } else {
            false
        }
    }
}

} // verus!
