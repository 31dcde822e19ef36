use nnc::frontend::lexer::lexeme::{is_blank, Base, ByteClass};
use nnc::frontend::lexer::token::{LexError, MaybeToken, Token, TokenType};
use nnc::frontend::lexer::lexeme::unescape;
use nnc::frontend::lexer::{count_in, keyword_or_iden, sanitize, string_value, Lexer};
use nnc::frontend::module::span::{line_col, ModuleId, Span};

fn lex(source: &str) -> Vec<Token> {
    Lexer::new(ModuleId::from(0usize), source.as_bytes()).lex()
}

fn kinds(source: &str) -> Vec<TokenType> {
    lex(source).iter().map(|t| t.ttype).collect()
}

fn texts(source: &str) -> Vec<String> {
    lex(source)
        .iter()
        .map(|t| source[t.span.start..t.span.start + t.span.len].to_string())
        .collect()
}

fn error(error: LexError) -> TokenType {
    TokenType::ErrorToken { error }
}

/// Checks on `source` what the lexer promises of every source: the tokens
/// stand in order, each with at least one byte, and what lies between them is
/// spaces and tabs.
fn check_tiling(source: &[u8]) {
    let tokens = Lexer::new(ModuleId::from(3usize), source).lex();
    let mut at = 0usize;
    let mut rebuilt: Vec<u8> = vec![];
    for t in tokens.iter() {
        assert!(t.span.start >= at);
        assert!(t.span.len >= 1);
        assert!(t.span.start + t.span.len <= source.len());
        for b in &source[at..t.span.start] {
            assert!(is_blank(*b));
        }
        rebuilt.extend_from_slice(&source[at..t.span.start]);
        rebuilt.extend_from_slice(&source[t.span.start..t.span.start + t.span.len]);
        assert_eq!(t.span.module_idx, ModuleId::from(3usize));
        assert_eq!((t.span.line, t.span.col), line_col(source, t.span.start));
        at = t.span.start + t.span.len;
    }
    for b in &source[at..] {
        assert!(is_blank(*b));
    }
    rebuilt.extend_from_slice(&source[at..]);
    assert_eq!(rebuilt, source);
}

#[test]
fn lexes_function_shorthand() {
    assert_eq!(
        kinds("def fun main() => 1 + 2;"),
        vec![
            TokenType::Def,
            TokenType::Fun,
            TokenType::Iden,
            TokenType::OpenParen,
            TokenType::CloseParen,
            TokenType::StrongArrowRight,
            TokenType::Integer,
            TokenType::Add,
            TokenType::Integer,
            TokenType::Semicolon,
        ]
    );
    assert_eq!(
        texts("def fun main() => 1 + 2;"),
        vec!["def", "fun", "main", "(", ")", "=>", "1", "+", "2", ";"]
    );
}

#[test]
fn unterminated_string_is_one_error_token() {
    let source = "\"unterminated";
    let tokens = lex(source);
    assert_eq!(tokens.len(), 1);
    assert_eq!(tokens[0].ttype, error(LexError::UnterminatedString));
    assert_eq!(tokens[0].span.start, 0);
    assert_eq!(tokens[0].span.len, source.len());
}

#[test]
fn empty_source_has_no_tokens() {
    assert_eq!(lex("").len(), 0);
    assert_eq!(lex(" \t  ").len(), 0);
}

#[test]
fn keywords_are_told_from_identifiers() {
    assert_eq!(
        kinds("def fun return var const struct"),
        vec![
            TokenType::Def,
            TokenType::Fun,
            TokenType::Return,
            TokenType::Var,
            TokenType::Const,
            TokenType::Struct,
        ]
    );
    assert_eq!(
        kinds("define _fun return1 Var x_9"),
        vec![TokenType::Iden, TokenType::Iden, TokenType::Iden, TokenType::Iden, TokenType::Iden]
    );
    assert_eq!(keyword_or_iden(b"def"), TokenType::Def);
    assert_eq!(keyword_or_iden(b"de"), TokenType::Iden);
    assert_eq!(keyword_or_iden(b""), TokenType::Iden);
}

#[test]
fn numbers_by_base_and_fraction() {
    assert_eq!(kinds("0 42 1_000 1'000"), vec![TokenType::Integer; 4]);
    assert_eq!(kinds("0x1F 0o17 0b101 0xdead_BEEF"), vec![TokenType::Integer; 4]);
    assert_eq!(kinds("1.5 0.25 3."), vec![TokenType::Float; 3]);
    assert_eq!(texts("3."), vec!["3."]);
}

#[test]
fn malformed_numbers_cover_the_whole_literal() {
    assert_eq!(kinds("1.2.3"), vec![error(LexError::InvalidNumber)]);
    assert_eq!(texts("1.2.3"), vec!["1.2.3"]);
    assert_eq!(kinds("0x1.8"), vec![error(LexError::InvalidNumber)]);
    assert_eq!(texts("0x1.8"), vec!["0x1.8"]);
    assert_eq!(kinds("0x"), vec![error(LexError::InvalidNumber)]);
    assert_eq!(kinds("0b_"), vec![error(LexError::InvalidNumber)]);
}

#[test]
fn number_ends_where_its_digits_end() {
    assert_eq!(kinds("12abc"), vec![TokenType::Integer, TokenType::Iden]);
    assert_eq!(texts("12abc"), vec!["12", "abc"]);
    assert_eq!(kinds("0b12"), vec![TokenType::Integer, TokenType::Integer]);
    assert_eq!(texts("0b12"), vec!["0b1", "2"]);
    assert_eq!(kinds("0X1"), vec![TokenType::Integer, TokenType::Iden]);
}

#[test]
fn strings_and_escapes() {
    assert_eq!(kinds("\"abc\""), vec![TokenType::Str]);
    assert_eq!(kinds("\"\""), vec![TokenType::Str]);
    assert_eq!(kinds("\"a\\\"b\""), vec![TokenType::Str]);
    assert_eq!(texts("\"a\\\"b\" x"), vec!["\"a\\\"b\"", "x"]);
    assert_eq!(kinds("\"a\\nb\""), vec![TokenType::Str]);
    assert_eq!(kinds("\"a\\\nb\""), vec![TokenType::Str]);
}

#[test]
fn string_with_bare_line_break_is_invalid() {
    assert_eq!(kinds("\"a\nb\""), vec![error(LexError::InvalidString)]);
    assert_eq!(texts("\"a\nb\" x"), vec!["\"a\nb\"", "x"]);
    assert_eq!(kinds("\"a\rb\""), vec![error(LexError::InvalidString)]);
}

#[test]
fn unterminated_strings() {
    assert_eq!(kinds("\""), vec![error(LexError::UnterminatedString)]);
    assert_eq!(kinds("\"abc\\"), vec![error(LexError::UnterminatedString)]);
    assert_eq!(kinds("\"abc\\\""), vec![error(LexError::UnterminatedString)]);
    assert_eq!(kinds("\"a\nb"), vec![error(LexError::UnterminatedString)]);
    assert_eq!(texts("x \"a\nb"), vec!["x", "\"a\nb"]);
}

#[test]
fn comments_and_slashes() {
    assert_eq!(
        kinds("1 // one\n2"),
        vec![TokenType::Integer, TokenType::Comment { block: false }, TokenType::Integer]
    );
    assert_eq!(texts("1 // one\n2"), vec!["1", "// one\n", "2"]);
    assert_eq!(kinds("// to the end"), vec![TokenType::Comment { block: false }]);
    assert_eq!(
        kinds("/* a /* b */ c */"),
        vec![
            TokenType::Comment { block: true },
            TokenType::Iden,
            error(LexError::UnknownCharacter),
            TokenType::Div,
        ]
    );
    assert_eq!(kinds("/**/"), vec![TokenType::Comment { block: true }]);
    assert_eq!(kinds("/*/"), vec![error(LexError::UnterminatedComment)]);
    assert_eq!(kinds("/* open"), vec![error(LexError::UnterminatedComment)]);
    assert_eq!(kinds("a / b /= c"), vec![
        TokenType::Iden,
        TokenType::Div,
        TokenType::Iden,
        TokenType::DivAssign,
        TokenType::Iden,
    ]);
}

#[test]
fn line_breaks_are_tokens() {
    assert_eq!(kinds("\n"), vec![TokenType::LineBreak]);
    assert_eq!(kinds("\r\n"), vec![TokenType::LineBreak]);
    assert_eq!(texts("a\r\nb"), vec!["a", "\r\n", "b"]);
    assert_eq!(kinds("\r\r\n\n"), vec![TokenType::LineBreak; 3]);
}

#[test]
fn lines_and_columns_count_from_zero() {
    let tokens = lex("a\n  b\r\nc \"x\ny\" d");
    let places: Vec<(usize, usize)> = tokens.iter().map(|t| (t.span.line, t.span.col)).collect();
    assert_eq!(
        places,
        vec![(0, 0), (0, 1), (1, 2), (1, 3), (2, 0), (2, 2), (3, 3)]
    );
    assert_eq!(line_col(b"a\nb", 3), (1, 1));
    assert_eq!(line_col(b"a\r\nb", 2), (0, 2));
    assert_eq!(line_col(b"a\r\nb", 3), (1, 0));
    assert_eq!(line_col(b"", 0), (0, 0));
}

#[test]
fn unknown_characters_are_error_tokens() {
    assert_eq!(kinds("@"), vec![error(LexError::UnknownCharacter)]);
    assert_eq!(kinds("= >"), vec![error(LexError::UnknownCharacter); 2]);
    assert_eq!(kinds("=>"), vec![TokenType::StrongArrowRight]);
    let source = "a é b";
    assert_eq!(
        kinds(source),
        vec![TokenType::Iden, error(LexError::UnknownCharacter), TokenType::Iden]
    );
    assert_eq!(texts(source), vec!["a", "é", "b"]);
    assert_eq!(kinds("''"), vec![error(LexError::UnknownCharacter); 2]);
}

#[test]
fn arbitrary_bytes_are_lexed_to_the_end() {
    let garbage: Vec<u8> = vec![0xFF, 0x00, 0x80, 0x22, 0x5C, 0xC3, 0x28, 0x0D, 0x2F, 0x2A, 0x30, 0x78];
    check_tiling(&garbage);
    let all: Vec<u8> = (0..=255u16).map(|b| b as u8).collect();
    check_tiling(&all);
}

#[test]
fn tokens_and_blanks_give_the_source_back() {
    check_tiling(b"");
    check_tiling(b"def fun main() => 1 + 2;");
    check_tiling(b"  def\tfun f ( ) {\r\n  return 0x1F; // done\n}\n\t ");
    check_tiling(b"\"open\n /* never closed");
    check_tiling("a é ∀ b".as_bytes());
}

#[test]
fn sanitize_drops_comments_and_line_breaks() {
    let tokens = lex("def // c\nfun /* d */ f\r\n;");
    let kept: Vec<TokenType> = sanitize(&tokens).iter().map(|t| t.ttype).collect();
    assert_eq!(kept, vec![TokenType::Def, TokenType::Fun, TokenType::Iden, TokenType::Semicolon]);
    assert_eq!(sanitize(&[]).len(), 0);
    let errors = lex("\"open");
    assert_eq!(sanitize(&errors).len(), 1);
}

#[test]
fn error_messages() {
    assert_eq!(LexError::UnknownCharacter.message(), "unknown character");
    assert_eq!(LexError::InvalidNumber.message(), "invalid numeric literal");
    assert_eq!(LexError::InvalidString.message(), "invalid string");
    assert_eq!(LexError::UnterminatedString.message(), "unterminated string");
    assert_eq!(LexError::UnterminatedComment.message(), "unterminated block comment");
}

#[test]
fn byte_classes() {
    assert!(ByteClass::Digit { base: Base::Hex }.contains(b'F'));
    assert!(!ByteClass::Digit { base: Base::Octal }.contains(b'8'));
    assert!(ByteClass::NumberBody { base: Base::Binary }.contains(b'\''));
    assert!(!ByteClass::NumberBody { base: Base::Binary }.contains(b'2'));
    assert!(ByteClass::Word.contains(b'_'));
    assert!(!ByteClass::Word.contains(b'-'));
    assert!(ByteClass::Continuation.contains(0x80));
    assert!(!ByteClass::Continuation.contains(0xC0));
    assert!(ByteClass::Dot.contains(b'.'));
    assert_eq!(count_in(b"1.2.3", 0, 5, ByteClass::Dot), 2);
    assert_eq!(count_in(b"1.2.3", 2, 5, ByteClass::Digit { base: Base::Decimal }), 2);
    assert_eq!(Base::Hex.radix(), 16);
    assert_eq!(Base::Binary.radix(), 2);
}

#[test]
fn token_tests() {
    let span = Span { module_idx: ModuleId::from(0usize), start: 0, len: 1, line: 0, col: 0 };
    let plus = Token { span, ttype: TokenType::Add };
    assert!(plus.is(TokenType::Add));
    assert!(!plus.is(TokenType::Def));
    assert!(plus._one_of(&[TokenType::Def, TokenType::Add]));
    assert!(!plus._one_of(&[]));
    assert!(!plus._nok());
    let eof = Token { span, ttype: TokenType::Eof };
    assert!(eof._nok());
    assert!(TokenType::LineBreak.is_trivia());
    assert!(TokenType::Comment { block: true }.is_trivia());
    assert!(!TokenType::Eof.is_trivia());

    assert_eq!(MaybeToken(Some(&plus)).assert_token(), &plus);
    assert_eq!(MaybeToken(Some(&plus)).assert_is(TokenType::Add), &plus);
    assert_eq!(MaybeToken(Some(&plus)).expect(), Ok(&plus));
    assert_eq!(MaybeToken(None).expect(), Err(None));
    assert_eq!(MaybeToken(Some(&plus)).expect_is(TokenType::Add), Ok(&plus));
    assert_eq!(MaybeToken(Some(&plus)).expect_is(TokenType::Def), Err(Some(&plus)));
    assert_eq!(MaybeToken(None).expect_is(TokenType::Def), Err(None));
    assert!(MaybeToken(Some(&plus)).is(TokenType::Add));
    assert!(!MaybeToken(None).is(TokenType::Add));
    assert_eq!(MaybeToken(Some(&plus)).ttype(), TokenType::Add);
    assert_eq!(MaybeToken(None).ttype(), TokenType::Eof);
}

#[test]
fn spans_join() {
    let module_idx = ModuleId::from(1usize);
    let a = Span { module_idx, start: 4, len: 3, line: 1, col: 2 };
    let b = Span { module_idx, start: 10, len: 5, line: 2, col: 0 };
    assert_eq!(a.to(b), Span { module_idx, start: 4, len: 11, line: 1, col: 2 });
    assert_eq!(a.to(a), a);
    assert_eq!(b.to(a), Span { module_idx, start: 10, len: 0, line: 2, col: 0 });
    let far = Span { module_idx, start: usize::MAX, len: 9, line: 0, col: 0 };
    assert_eq!(a.to(far).len, usize::MAX - 4);
    assert_eq!(a.slice(b"0123456789"), b"456");
}

#[test]
fn string_values() {
    assert_eq!(string_value(b"\"abc\""), Some(b"abc".to_vec()));
    assert_eq!(string_value(b"\"\""), Some(vec![]));
    assert_eq!(string_value(b"\"a\\nb\\t\\r\\0\\\\\""), Some(vec![b'a', 10, b'b', 9, 13, 0, b'\\']));
    assert_eq!(string_value(b"\"say \\\"hi\\\"\""), Some(b"say \"hi\"".to_vec()));
    assert_eq!(string_value(b"\"\\q\""), Some(b"q".to_vec()));
    assert_eq!(string_value(b"\"a\\\nb\""), Some(b"a\nb".to_vec()));
    assert_eq!(string_value(b""), None);
    assert_eq!(string_value(b"abc"), None);
    assert_eq!(string_value(b"\""), None);
    assert_eq!(string_value(b"\"abc"), None);
    assert_eq!(string_value(b"\"abc\\\""), None);
    assert_eq!(string_value(b"\"a\nb\""), None);
    assert_eq!(string_value(b"\"a\" "), None);
    assert_eq!(string_value(b"\"a\"b\""), None);
    assert_eq!(unescape(b'n'), b'\n');
    assert_eq!(unescape(b'0'), 0);
    assert_eq!(unescape(b'x'), b'x');
}
