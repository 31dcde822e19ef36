//! Tokens: a tag and the span of source text it was read from.
use crate::frontend::module::span::Span;
use vstd::prelude::*;

verus! {

/// Why a stretch of source text is no token of the language.
#[derive(Copy, Clone, Debug, PartialEq, Eq, Structural)]
pub enum LexError {
    /// A character that starts no token.
    UnknownCharacter,
    /// A number with a second fraction point, with a fraction point in a base
    /// other than ten, or with a base prefix and no digit.
    InvalidNumber,
    /// A closed string that holds a bare line break.
    InvalidString,
    /// A string that the end of the source cuts off.
    UnterminatedString,
    /// A block comment that the end of the source cuts off.
    UnterminatedComment,
}

impl LexError {
    /// The text of the diagnostic.
    pub fn message(&self) -> (r: &'static str)
        ensures
            r@ == match *self {
                LexError::UnknownCharacter => "unknown character"@,
                LexError::InvalidNumber => "invalid numeric literal"@,
                LexError::InvalidString => "invalid string"@,
                LexError::UnterminatedString => "unterminated string"@,
                LexError::UnterminatedComment => "unterminated block comment"@,
            },
    {
        match self {
            LexError::UnknownCharacter => "unknown character",
            LexError::InvalidNumber => "invalid numeric literal",
            LexError::InvalidString => "invalid string",
            LexError::UnterminatedString => "unterminated string",
            LexError::UnterminatedComment => "unterminated block comment",
        }
    }
}

/// The tag of a token. Identifier text and literal values are not stored: they
/// are read from the span when wanted.
#[derive(Copy, Clone, Debug, PartialEq, Eq, Structural)]
pub enum TokenType {
    ErrorToken { error: LexError },
    Eof,
    LineBreak,
    Comment { block: bool },
    Iden,
    Integer,
    Float,
    Str,
    Def,
    Fun,
    Return,
    Var,
    Const,
    Struct,
    Add,
    Div,
    DivAssign,
    StrongArrowRight,
    OpenParen,
    CloseParen,
    OpenBrace,
    CloseBrace,
    Semicolon,
}

impl TokenType {
    /// Whether the tag is one that the parser never sees: a comment or a line
    /// break.
    pub open spec fn spec_is_trivia(self) -> bool {
        self is Comment || self is LineBreak
    }

    /// Whether the tag is one that the parser never sees.
    #[verifier::when_used_as_spec(spec_is_trivia)]
    pub fn is_trivia(self) -> (r: bool)
        ensures
            r == self.spec_is_trivia(),
    {
        match self {
            TokenType::Comment { .. } => true,
            TokenType::LineBreak => true,
            _ => false,
        }
    }
}

#[derive(Copy, Clone, Debug, PartialEq, Eq)]
pub struct Token {
    pub span: Span,
    pub ttype: TokenType,
}

impl Token {
    pub open spec fn spec_is(&self, ttype: TokenType) -> bool {
        self.ttype == ttype
    }

    /// Whether the token has the tag `ttype`.
    #[verifier::when_used_as_spec(spec_is)]
    pub fn is(&self, ttype: TokenType) -> (r: bool)
        ensures
            r == (self.ttype == ttype),
    {
        self.ttype == ttype
    }

    /// Whether the tag of the token is among `ttypes`.
    pub fn _one_of(&self, ttypes: &[TokenType]) -> (r: bool)
        ensures
            r == ttypes@.contains(self.ttype),
    {
        let mut i: usize = 0;
        while i < ttypes.len()
            invariant
                i <= ttypes@.len(),
                forall|j: int| 0 <= j < i ==> ttypes@[j] != self.ttype,
            decreases ttypes@.len() - i,
        {
            if ttypes[i] == self.ttype {
                return true;
            }
            i += 1;
        }
        false
    }

    /// Whether the token is an error or the end of the input.
    pub fn _nok(&self) -> (r: bool)
        ensures
            r == (self.ttype is ErrorToken || self.ttype is Eof),
    {
        match self.ttype {
            TokenType::ErrorToken { .. } => true,
            TokenType::Eof => true,
            _ => false,
        }
    }
}

/// The token at the parser's position, or nothing at the end of the input.
#[derive(Debug)]
pub struct MaybeToken<'m>(pub Option<&'m Token>);

impl<'a> MaybeToken<'a> {
    /// The token, which must be there.
    pub fn assert_token(self) -> (r: &'a Token)
        requires
            self.0 is Some,
        ensures
            Some(r) == self.0,
    {
        self.0.unwrap()
    }

    /// The token, which must be there and have the tag `ttype`.
    pub fn assert_is(self, ttype: TokenType) -> (r: &'a Token)
        requires
            self.0 is Some,
            self.0->0.ttype == ttype,
        ensures
            Some(r) == self.0,
    {
        self.0.unwrap()
    }

    /// The token, or the failure of having none.
    pub fn expect(self) -> (r: Result<&'a Token, Option<&'a Token>>)
        ensures
            r == match self.0 {
                Some(t) => Ok::<&Token, Option<&Token>>(t),
                None => Err(None),
            },
    {
        match self.0 {
            Some(t) => Ok(t),
            None => Err(None),
        }
    }

    /// The token where it has the tag `ttype`; else what was found in its
    /// place.
    pub fn expect_is(self, ttype: TokenType) -> (r: Result<&'a Token, Option<&'a Token>>)
        ensures
            r == match self.0 {
                Some(t) if t.ttype == ttype => Ok::<&Token, Option<&Token>>(t),
                _ => Err(self.0),
            },
    {
        match self.0 {
            Some(t) => {
                if t.ttype == ttype {
                    Ok(t)
                } else {
                    Err(self.0)
                }
            },
            None => Err(None),
        }
    }

    /// Whether there is a token and it has the tag `ttype`.
    pub fn is(&self, ttype: TokenType) -> (r: bool)
        ensures
            r == (self.0 is Some && self.0->0.ttype == ttype),
    {
        match self.0 {
            Some(t) => t.ttype == ttype,
            None => false,
        }
    }

    /// The tag of the token, or `Eof` where there is none.
    pub fn ttype(&self) -> (r: TokenType)
        ensures
            r == match self.0 {
                Some(t) => t.ttype,
                None => TokenType::Eof,
            },
    {
        match self.0 {
            Some(t) => t.ttype,
            None => TokenType::Eof,
        }
    }
}

} // verus!
