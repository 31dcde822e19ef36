//! What the lexer reads at a position of the source: the mathematical
//! description of one lexeme, and of the whole token stream.
use crate::frontend::lexer::ascii::{
    APOSTROPHE, BACKSLASH, CARRIAGE_RETURN, CLOSE_BRACE, CLOSE_PAREN, CONTINUATION_FIRST,
    CONTINUATION_LAST, DIGIT_0, DIGIT_1, DIGIT_7, DIGIT_9, DOT, EQUALS, GREATER, LINE_FEED, LOWER_A,
    LOWER_B, LOWER_C, LOWER_D, LOWER_E, LOWER_F, LOWER_N, LOWER_O, LOWER_R, LOWER_S, LOWER_T,
    LOWER_U, LOWER_V, LOWER_X, LOWER_Z, OPEN_BRACE, OPEN_PAREN, PLUS, QUOTE, SEMICOLON, SLASH,
    SPACE, STAR, TAB, UNDERSCORE, UPPER_A, UPPER_F, UPPER_Z,
};
use crate::frontend::lexer::token::{LexError, Token, TokenType};
use crate::frontend::module::span::{span_at, ModuleId};
use vstd::prelude::*;

verus! {

/// The base of a number, fixed by its prefix: `0b`, `0o`, `0x`, or none.
#[derive(Copy, Clone, Debug, PartialEq, Eq, Structural)]
pub enum Base {
    Binary,
    Octal,
    Decimal,
    Hex,
}

/// A set of bytes that a scan runs over.
#[derive(Copy, Clone, Debug, PartialEq, Eq, Structural)]
pub enum ByteClass {
    /// The digits of a base.
    Digit { base: Base },
    /// The fraction point.
    Dot,
    /// What a number is made of: digits of its base, the separators `_` and
    /// `'`, and the fraction point.
    NumberBody { base: Base },
    /// Letters, digits and the underscore.
    Word,
    /// The bytes that continue a character of more than one byte.
    Continuation,
}

pub open spec fn spec_is_blank(b: u8) -> bool {
    b == SPACE || b == TAB
}

/// Whether `b` is white space that yields no token: a space or a tab.
#[verifier::when_used_as_spec(spec_is_blank)]
pub fn is_blank(b: u8) -> (r: bool)
    ensures
        r == spec_is_blank(b),
{
    b == SPACE || b == TAB
}

pub open spec fn spec_is_digit(b: u8) -> bool {
    DIGIT_0 <= b <= DIGIT_9
}

/// Whether `b` is a decimal digit.
#[verifier::when_used_as_spec(spec_is_digit)]
pub fn is_digit(b: u8) -> (r: bool)
    ensures
        r == spec_is_digit(b),
{
    DIGIT_0 <= b && b <= DIGIT_9
}

pub open spec fn spec_is_word_start(b: u8) -> bool {
    (LOWER_A <= b <= LOWER_Z) || (UPPER_A <= b <= UPPER_Z) || b == UNDERSCORE
}

/// Whether `b` can start an identifier: a letter or the underscore.
#[verifier::when_used_as_spec(spec_is_word_start)]
pub fn is_word_start(b: u8) -> (r: bool)
    ensures
        r == spec_is_word_start(b),
{
    (LOWER_A <= b && b <= LOWER_Z) || (UPPER_A <= b && b <= UPPER_Z) || b == UNDERSCORE
}

impl Base {
    pub open spec fn spec_has_digit(self, b: u8) -> bool {
        match self {
            Base::Binary => b == DIGIT_0 || b == DIGIT_1,
            Base::Octal => DIGIT_0 <= b <= DIGIT_7,
            Base::Decimal => DIGIT_0 <= b <= DIGIT_9,
            Base::Hex => (DIGIT_0 <= b <= DIGIT_9) || (LOWER_A <= b <= LOWER_F) || (UPPER_A <= b
                <= UPPER_F),
        }
    }

    /// Whether `b` is a digit of this base.
    #[verifier::when_used_as_spec(spec_has_digit)]
    pub fn has_digit(self, b: u8) -> (r: bool)
        ensures
            r == self.spec_has_digit(b),
    {
        match self {
            Base::Binary => b == DIGIT_0 || b == DIGIT_1,
            Base::Octal => DIGIT_0 <= b && b <= DIGIT_7,
            Base::Decimal => DIGIT_0 <= b && b <= DIGIT_9,
            Base::Hex => (DIGIT_0 <= b && b <= DIGIT_9) || (LOWER_A <= b && b <= LOWER_F) || (
            UPPER_A <= b && b <= UPPER_F),
        }
    }

    pub open spec fn spec_radix(self) -> u64 {
        match self {
            Base::Binary => 2,
            Base::Octal => 8,
            Base::Decimal => 10,
            Base::Hex => 16,
        }
    }

    /// The number of digits of this base.
    #[verifier::when_used_as_spec(spec_radix)]
    pub fn radix(self) -> (r: u64)
        ensures
            r == self.spec_radix(),
    {
        match self {
            Base::Binary => 2,
            Base::Octal => 8,
            Base::Decimal => 10,
            Base::Hex => 16,
        }
    }
}

impl ByteClass {
    pub open spec fn spec_contains(self, b: u8) -> bool {
        match self {
            ByteClass::Digit { base } => base.spec_has_digit(b),
            ByteClass::Dot => b == DOT,
            ByteClass::NumberBody { base } => base.spec_has_digit(b) || b == UNDERSCORE || b
                == APOSTROPHE || b == DOT,
            ByteClass::Word => spec_is_word_start(b) || spec_is_digit(b),
            ByteClass::Continuation => CONTINUATION_FIRST <= b <= CONTINUATION_LAST,
        }
    }

    /// Whether `b` belongs to the class.
    #[verifier::when_used_as_spec(spec_contains)]
    pub fn contains(self, b: u8) -> (r: bool)
        ensures
            r == self.spec_contains(b),
    {
        match self {
            ByteClass::Digit { base } => base.has_digit(b),
            ByteClass::Dot => b == DOT,
            ByteClass::NumberBody { base } => base.has_digit(b) || b == UNDERSCORE || b
                == APOSTROPHE || b == DOT,
            ByteClass::Word => is_word_start(b) || is_digit(b),
            ByteClass::Continuation => CONTINUATION_FIRST <= b && b <= CONTINUATION_LAST,
        }
    }
}

/// The length of the longest run of bytes of `class` that starts at `pos`.
pub open spec fn run_len(src: Seq<u8>, pos: int, class: ByteClass) -> nat
    decreases src.len() - pos,
{
    if 0 <= pos < src.len() && class.spec_contains(src[pos]) {
        1 + run_len(src, pos + 1, class)
    } else {
        0
    }
}

/// The number of bytes of `class` among those at the offsets from `from` up to,
/// and without, `to`.
pub open spec fn count_of(src: Seq<u8>, from: int, to: int, class: ByteClass) -> nat
    decreases to - from,
{
    if to <= from || to > src.len() || from < 0 {
        0
    } else if class.spec_contains(src[to - 1]) {
        count_of(src, from, to - 1, class) + 1
    } else {
        count_of(src, from, to - 1, class)
    }
}

/// One lexeme: its length in bytes, at least 1, and the tag of its token, or
/// `None` for white space that yields no token.
pub struct Lexeme {
    pub kind: Option<TokenType>,
    pub len: nat,
}

/// The base of the number at `pos`.
pub open spec fn number_base(src: Seq<u8>, pos: int) -> Base {
    if src[pos] == DIGIT_0 && pos + 1 < src.len() {
        if src[pos + 1] == LOWER_X {
            Base::Hex
        } else if src[pos + 1] == LOWER_O {
            Base::Octal
        } else if src[pos + 1] == LOWER_B {
            Base::Binary
        } else {
            Base::Decimal
        }
    } else {
        Base::Decimal
    }
}

/// The number of bytes of the number at `pos` that stand before its body: the
/// two of a base prefix, or the first digit.
pub open spec fn number_head(src: Seq<u8>, pos: int) -> nat {
    if number_base(src, pos) == Base::Decimal {
        1
    } else {
        2
    }
}

/// The number at `pos`, where a decimal digit stands. It runs over the base
/// prefix, if any, and then over digits of the base, separators and fraction
/// points for as long as they come. It is an integer unless it holds a
/// fraction point, and an error if it holds two, or one in a base other than
/// ten, or no digit at all behind a base prefix.
pub open spec fn number_lexeme(src: Seq<u8>, pos: int) -> Lexeme {
    let base = number_base(src, pos);
    let body = pos + number_head(src, pos);
    let body_len = run_len(src, body, ByteClass::NumberBody { base });
    let dots = count_of(src, body, body + body_len, ByteClass::Dot);
    let digits = count_of(src, body, body + body_len, ByteClass::Digit { base }) + if base
        == Base::Decimal {
        1nat
    } else {
        0nat
    };
    let kind = if dots > 1 || (dots > 0 && base != Base::Decimal) || digits == 0 {
        TokenType::ErrorToken { error: LexError::InvalidNumber }
    } else if dots == 1 {
        TokenType::Float
    } else {
        TokenType::Integer
    };
    Lexeme { kind: Some(kind), len: number_head(src, pos) + body_len }
}

/// What follows the opening quote of a string.
pub struct StringTail {
    /// The bytes up to and with the closing quote, or up to the end of the
    /// source.
    pub len: nat,
    /// Whether the closing quote was found.
    pub closed: bool,
    /// Whether a line break stands in the string that no backslash escapes.
    pub broken: bool,
}

/// The rest of a string whose opening quote stands before `pos`. A backslash
/// takes the byte behind it along, whatever it is.
pub open spec fn string_tail(src: Seq<u8>, pos: int) -> StringTail
    decreases src.len() - pos,
{
    if pos < 0 || pos >= src.len() {
        StringTail { len: 0, closed: false, broken: false }
    } else if src[pos] == QUOTE {
        StringTail { len: 1, closed: true, broken: false }
    } else if src[pos] == BACKSLASH {
        if pos + 1 < src.len() {
            let rest = string_tail(src, pos + 2);
            StringTail { len: 2 + rest.len, closed: rest.closed, broken: rest.broken }
        } else {
            StringTail { len: 1, closed: false, broken: false }
        }
    } else {
        let rest = string_tail(src, pos + 1);
        StringTail {
            len: 1 + rest.len,
            closed: rest.closed,
            broken: rest.broken || src[pos] == LINE_FEED || src[pos] == CARRIAGE_RETURN,
        }
    }
}

/// The string at `pos`, where a quote stands.
pub open spec fn string_lexeme(src: Seq<u8>, pos: int) -> Lexeme {
    let tail = string_tail(src, pos + 1);
    let kind = if !tail.closed {
        TokenType::ErrorToken { error: LexError::UnterminatedString }
    } else if tail.broken {
        TokenType::ErrorToken { error: LexError::InvalidString }
    } else {
        TokenType::Str
    };
    Lexeme { kind: Some(kind), len: 1 + tail.len }
}

/// Whether `text` is a string literal from its first to its last byte: it
/// starts with a quote, the quote that closes it is its last byte, and no
/// bare line break stands in it.
pub open spec fn is_string_literal(text: Seq<u8>) -> bool {
    &&& text.len() > 0
    &&& text[0] == QUOTE
    &&& string_lexeme(text, 0).kind == Some(TokenType::Str)
    &&& string_lexeme(text, 0).len == text.len()
}

pub open spec fn spec_unescape(c: u8) -> u8 {
    if c == DIGIT_0 {
        0x00
    } else if c == LOWER_N {
        LINE_FEED
    } else if c == LOWER_T {
        TAB
    } else if c == LOWER_R {
        CARRIAGE_RETURN
    } else {
        c
    }
}

/// The byte that the escape of `c` stands for: in place of `0`, `n`, `t` and
/// `r` the null byte, the line feed, the tab and the carriage return, and in
/// place of any other byte that byte itself.
#[verifier::when_used_as_spec(spec_unescape)]
pub fn unescape(c: u8) -> (r: u8)
    ensures
        r == spec_unescape(c),
{
    if c == DIGIT_0 {
        0x00
    } else if c == LOWER_N {
        LINE_FEED
    } else if c == LOWER_T {
        TAB
    } else if c == LOWER_R {
        CARRIAGE_RETURN
    } else {
        c
    }
}

/// The content that `body`, the text between the quotes of a string,
/// spells: its bytes as they are, but for a backslash and the byte behind
/// it, which give the byte that the escape stands for.
pub open spec fn spelled(body: Seq<u8>) -> Seq<u8>
    decreases body.len(),
{
    if body.len() == 0 {
        Seq::empty()
    } else if body[0] == BACKSLASH && body.len() >= 2 {
        seq![spec_unescape(body[1])] + spelled(body.skip(2))
    } else if body[0] == BACKSLASH {
        spelled(body.skip(1))
    } else {
        seq![body[0]] + spelled(body.skip(1))
    }
}

/// The number of bytes from `pos` up to and with the next line feed, or up to
/// the end of the source.
pub open spec fn line_tail(src: Seq<u8>, pos: int) -> nat
    decreases src.len() - pos,
{
    if pos < 0 || pos >= src.len() {
        0
    } else if src[pos] == LINE_FEED {
        1
    } else {
        1 + line_tail(src, pos + 1)
    }
}

/// What follows the opening of a block comment.
pub struct BlockTail {
    /// The bytes up to and with the first `*/`, or up to the end of the source.
    pub len: nat,
    /// Whether `*/` was found.
    pub closed: bool,
}

/// The rest of a block comment whose opening stands before `pos`. The first
/// `*/` closes it: block comments do not nest.
pub open spec fn block_tail(src: Seq<u8>, pos: int) -> BlockTail
    decreases src.len() - pos,
{
    if pos < 0 || pos >= src.len() {
        BlockTail { len: 0, closed: false }
    } else if src[pos] == STAR && pos + 1 < src.len() && src[pos + 1] == SLASH {
        BlockTail { len: 2, closed: true }
    } else {
        let rest = block_tail(src, pos + 1);
        BlockTail { len: 1 + rest.len, closed: rest.closed }
    }
}

/// The lexeme at `pos`, where a slash stands: a line comment, a block comment,
/// `/=` or `/`.
pub open spec fn slash_lexeme(src: Seq<u8>, pos: int) -> Lexeme {
    if pos + 1 < src.len() && src[pos + 1] == SLASH {
        Lexeme {
            kind: Some(TokenType::Comment { block: false }),
            len: 2 + line_tail(src, pos + 2),
        }
    } else if pos + 1 < src.len() && src[pos + 1] == STAR {
        let tail = block_tail(src, pos + 2);
        Lexeme {
            kind: Some(
                if tail.closed {
                    TokenType::Comment { block: true }
                } else {
                    TokenType::ErrorToken { error: LexError::UnterminatedComment }
                },
            ),
            len: 2 + tail.len,
        }
    } else if pos + 1 < src.len() && src[pos + 1] == EQUALS {
        Lexeme { kind: Some(TokenType::DivAssign), len: 2 }
    } else {
        Lexeme { kind: Some(TokenType::Div), len: 1 }
    }
}

/// How the keyword with the tag `keyword` is spelled; empty for a tag that is
/// no keyword.
pub open spec fn spelling(keyword: TokenType) -> Seq<u8> {
    match keyword {
        TokenType::Def => seq![LOWER_D, LOWER_E, LOWER_F],
        TokenType::Fun => seq![LOWER_F, LOWER_U, LOWER_N],
        TokenType::Var => seq![LOWER_V, LOWER_A, LOWER_R],
        TokenType::Const => seq![LOWER_C, LOWER_O, LOWER_N, LOWER_S, LOWER_T],
        TokenType::Return => seq![LOWER_R, LOWER_E, LOWER_T, LOWER_U, LOWER_R, LOWER_N],
        TokenType::Struct => seq![LOWER_S, LOWER_T, LOWER_R, LOWER_U, LOWER_C, LOWER_T],
        _ => Seq::empty(),
    }
}

/// The tag of the word `text`: that of the keyword it spells, else `Iden`.
pub open spec fn word_kind(text: Seq<u8>) -> TokenType {
    if text == spelling(TokenType::Def) {
        TokenType::Def
    } else if text == spelling(TokenType::Fun) {
        TokenType::Fun
    } else if text == spelling(TokenType::Var) {
        TokenType::Var
    } else if text == spelling(TokenType::Const) {
        TokenType::Const
    } else if text == spelling(TokenType::Return) {
        TokenType::Return
    } else if text == spelling(TokenType::Struct) {
        TokenType::Struct
    } else {
        TokenType::Iden
    }
}

/// The lexeme at `pos`, where a letter or an underscore stands: the longest
/// run of letters, digits and underscores.
pub open spec fn word_lexeme(src: Seq<u8>, pos: int) -> Lexeme {
    let len = 1 + run_len(src, pos + 1, ByteClass::Word);
    Lexeme { kind: Some(word_kind(src.subrange(pos, pos + len))), len }
}

/// The lexeme at `pos`, which lies inside `src`. The longest match wins.
pub open spec fn lexeme(src: Seq<u8>, pos: int) -> Lexeme {
    let b = src[pos];
    if spec_is_digit(b) {
        number_lexeme(src, pos)
    } else if b == QUOTE {
        string_lexeme(src, pos)
    } else if spec_is_word_start(b) {
        word_lexeme(src, pos)
    } else if b == SLASH {
        slash_lexeme(src, pos)
    } else if b == PLUS {
        Lexeme { kind: Some(TokenType::Add), len: 1 }
    } else if b == SEMICOLON {
        Lexeme { kind: Some(TokenType::Semicolon), len: 1 }
    } else if b == OPEN_PAREN {
        Lexeme { kind: Some(TokenType::OpenParen), len: 1 }
    } else if b == CLOSE_PAREN {
        Lexeme { kind: Some(TokenType::CloseParen), len: 1 }
    } else if b == OPEN_BRACE {
        Lexeme { kind: Some(TokenType::OpenBrace), len: 1 }
    } else if b == CLOSE_BRACE {
        Lexeme { kind: Some(TokenType::CloseBrace), len: 1 }
    } else if b == EQUALS && pos + 1 < src.len() && src[pos + 1] == GREATER {
        Lexeme { kind: Some(TokenType::StrongArrowRight), len: 2 }
    } else if b == LINE_FEED {
        Lexeme { kind: Some(TokenType::LineBreak), len: 1 }
    } else if b == CARRIAGE_RETURN {
        Lexeme {
            kind: Some(TokenType::LineBreak),
            len: if pos + 1 < src.len() && src[pos + 1] == LINE_FEED {
                2
            } else {
                1
            },
        }
    } else if spec_is_blank(b) {
        Lexeme { kind: None, len: 1 }
    } else {
        Lexeme {
            kind: Some(TokenType::ErrorToken { error: LexError::UnknownCharacter }),
            len: 1 + run_len(src, pos + 1, ByteClass::Continuation),
        }
    }
}

/// The number of bytes of `src` from offset `pos` on.
pub open spec fn bytes_left(src: Seq<u8>, pos: int) -> nat {
    if pos < src.len() {
        (src.len() - pos) as nat
    } else {
        0
    }
}

/// The tokens of `src` from offset `pos` on, in the order of the text.
pub open spec fn tokens_from(module_idx: ModuleId, src: Seq<u8>, pos: int) -> Seq<Token>
    decreases bytes_left(src, pos),
{
    if pos < 0 || pos >= src.len() {
        Seq::empty()
    } else {
        let lx = lexeme(src, pos);
        let rest = tokens_from(module_idx, src, pos + lx.len);
        match lx.kind {
            None => rest,
            Some(ttype) => seq![Token {
                span: span_at(module_idx, src, pos, lx.len as int),
                ttype,
            }] + rest,
        }
    }
}

/// The tokens of the whole of `src`.
pub open spec fn tokens_of(module_idx: ModuleId, src: Seq<u8>) -> Seq<Token> {
    tokens_from(module_idx, src, 0)
}

} // verus!
