use nnc::frontend::lexer::token::{Token, TokenType};
use nnc::frontend::lexer::{sanitize, Lexer};
use nnc::frontend::module::span::{ModuleId, Span};
use nnc::frontend::parser::ast::{Ast, AstId, AstTag, AstType};
use nnc::frontend::parser::grammar::{ParserError, SyntaxError};
use nnc::frontend::parser::Parser;
use nnc::util::indexed_vector::IndexedVec;

fn id(i: usize) -> AstId {
    AstId::from(i)
}

fn eof(source: &str) -> Token {
    Token {
        ttype: TokenType::Eof,
        span: Span { module_idx: ModuleId::from(0usize), start: source.len(), len: 0, line: 0, col: 0 },
    }
}

fn parse(source: &str) -> (IndexedVec<AstTag, Ast>, Vec<ParserError>) {
    let tokens = sanitize(&Lexer::new(ModuleId::from(0usize), source.as_bytes()).lex());
    let mut parser = Parser::new(&tokens, eof(source));
    parser.parse();
    parser.get_results()
}

fn kinds(asts: &IndexedVec<AstTag, Ast>) -> Vec<&AstType> {
    asts.as_slice().iter().map(|a| &a.atype).collect()
}

fn text<'a>(source: &'a str, ast: &Ast) -> &'a str {
    &source[ast.span.start..ast.span.start + ast.span.len]
}

/// Checks what the parser promises of every arena: it is not empty, its last
/// node is the program, each node carries its own handle, and each reference
/// goes to an earlier node or is not resolved yet.
fn check_arena(asts: &IndexedVec<AstTag, Ast>) {
    assert!(asts.len() >= 2);
    assert_eq!(asts.as_slice()[asts.len() - 1].atype, AstType::Program(id(asts.len() - 2)));
    assert!(matches!(asts.as_slice()[asts.len() - 2].atype, AstType::TopBlock(_)));
    for (i, ast) in asts.as_slice().iter().enumerate() {
        assert_eq!(ast.id, id(i));
        let children: Vec<AstId> = match &ast.atype {
            AstType::Program(b) => vec![*b],
            AstType::TopBlock(v) | AstType::FunctionBlock(v) | AstType::Block(v) => v.clone(),
            AstType::FunctionDefinition { ftype, body } => vec![*ftype, *body],
            AstType::FunctionType { name, constant_params, params } => {
                assert!(constant_params.is_unresolved());
                vec![*name, *params]
            }
            AstType::Return(r) => vec![*r],
            AstType::Add { left, right } => vec![*left, *right],
            AstType::FunctionCall { function, args } => {
                assert!(args.is_unresolved());
                vec![*function]
            }
            _ => vec![],
        };
        for c in children {
            assert!(c.0 < i);
        }
    }
}

#[test]
fn parses_function_shorthand() {
    let source = "def fun main() => 1 + 2;";
    let (asts, errors) = parse(source);
    assert_eq!(errors, vec![]);
    assert_eq!(
        kinds(&asts),
        vec![
            &AstType::Iden,
            &AstType::FunctionParams,
            &AstType::FunctionType { name: id(0), constant_params: AstId::unresolved(), params: id(1) },
            &AstType::NumberLiteral,
            &AstType::NumberLiteral,
            &AstType::Add { left: id(3), right: id(4) },
            &AstType::Return(id(5)),
            &AstType::FunctionBlock(vec![id(6)]),
            &AstType::FunctionDefinition { ftype: id(2), body: id(7) },
            &AstType::TopBlock(vec![id(8)]),
            &AstType::Program(id(9)),
        ]
    );
    let spans: Vec<&str> = asts.as_slice().iter().map(|a| text(source, a)).collect();
    assert_eq!(
        spans,
        vec![
            "main",
            "()",
            "fun main()",
            "1",
            "2",
            "1 + 2",
            "1 + 2",
            "=> 1 + 2",
            "def fun main() => 1 + 2",
            "def fun main() => 1 + 2;",
            "def fun main() => 1 + 2;",
        ]
    );
    check_arena(&asts);
}

#[test]
fn braces_and_arrow_give_the_same_tree() {
    let (long, long_errors) = parse("def fun f() { return 5; }");
    let (short, short_errors) = parse("def fun f() => 5;");
    assert_eq!(long_errors, vec![]);
    assert_eq!(short_errors, vec![]);
    assert_eq!(kinds(&long), kinds(&short));
    assert_eq!(
        kinds(&long),
        vec![
            &AstType::Iden,
            &AstType::FunctionParams,
            &AstType::FunctionType { name: id(0), constant_params: AstId::unresolved(), params: id(1) },
            &AstType::NumberLiteral,
            &AstType::Return(id(3)),
            &AstType::FunctionBlock(vec![id(4)]),
            &AstType::FunctionDefinition { ftype: id(2), body: id(5) },
            &AstType::TopBlock(vec![id(6)]),
            &AstType::Program(id(7)),
        ]
    );
}

#[test]
fn block_span_runs_from_brace_to_brace() {
    let source = "def fun f() { return 5; }";
    let (asts, _) = parse(source);
    assert_eq!(text(source, &asts.as_slice()[5]), "{ return 5; }");
    assert_eq!(text(source, &asts.as_slice()[4]), "return 5");
}

#[test]
fn stray_brace_at_top_level_is_skipped() {
    let source = "} def fun f() => 1;";
    let (asts, errors) = parse(source);
    assert_eq!(
        errors,
        vec![ParserError {
            error: SyntaxError::Expected { expected: TokenType::Def, found: TokenType::CloseBrace },
            position: 0,
            span: asts.as_slice()[0].span,
        }]
    );
    assert_eq!(asts.as_slice()[0].atype, AstType::ErrorAst);
    assert_eq!(text(source, &asts.as_slice()[0]), "}");
    let count = asts.as_slice().iter().filter(|a| a.atype == AstType::ErrorAst).count();
    assert_eq!(count, 1);
    let last = asts.len() - 1;
    assert_eq!(asts.as_slice()[last - 1].atype, AstType::TopBlock(vec![id(0), id(last - 2)]));
    assert_eq!(
        asts.as_slice()[last - 2].atype,
        AstType::FunctionDefinition { ftype: id(3), body: id(6) }
    );
    assert_eq!(text(source, &asts.as_slice()[1]), "f");
    assert_eq!(asts.as_slice()[1].atype, AstType::Iden);
    assert_eq!(asts.as_slice()[6].atype, AstType::FunctionBlock(vec![id(5)]));
    assert_eq!(asts.as_slice()[5].atype, AstType::Return(id(4)));
    assert_eq!(asts.as_slice()[4].atype, AstType::NumberLiteral);
    assert_eq!(text(source, &asts.as_slice()[4]), "1");
    check_arena(&asts);
}

#[test]
fn empty_input_gives_a_program_around_an_empty_block() {
    for source in ["", "  \t", "// nothing\n", "\n\n/* nothing */\n"] {
        let (asts, errors) = parse(source);
        assert_eq!(kinds(&asts), vec![&AstType::TopBlock(vec![]), &AstType::Program(id(0))]);
        assert_eq!(errors, vec![]);
        assert_eq!(asts.as_slice()[1].span, eof(source).span);
        check_arena(&asts);
    }
}

#[test]
fn input_that_ends_inside_an_expression() {
    let source = "def fun f() => 1";
    let (asts, errors) = parse(source);
    assert_eq!(
        errors,
        vec![ParserError { error: SyntaxError::UnexpectedEnd, position: 7, span: eof(source).span }]
    );
    assert_eq!(
        kinds(&asts),
        vec![
            &AstType::Iden,
            &AstType::FunctionParams,
            &AstType::FunctionType { name: id(0), constant_params: AstId::unresolved(), params: id(1) },
            &AstType::NumberLiteral,
            &AstType::ErrorAst,
            &AstType::TopBlock(vec![id(4)]),
            &AstType::Program(id(5)),
        ]
    );
    assert_eq!(asts.as_slice()[4].span, eof(source).span);
    check_arena(&asts);
}

#[test]
fn what_was_read_before_the_end_stays_in_the_tree() {
    let source = "def fun a() => 1; } def fun b() { return";
    let (asts, errors) = parse(source);
    assert_eq!(errors.len(), 2);
    assert_eq!(
        errors[0].error,
        SyntaxError::Expected { expected: TokenType::Def, found: TokenType::CloseBrace }
    );
    assert_eq!(errors[0].position, 8);
    assert_eq!(errors[1].error, SyntaxError::UnexpectedEnd);
    assert_eq!(errors[1].position, 16);
    let last = asts.len() - 1;
    assert_eq!(asts.as_slice()[last].atype, AstType::Program(id(last - 1)));
    assert_eq!(
        asts.as_slice()[last - 1].atype,
        AstType::TopBlock(vec![id(6), id(7), id(last - 2)])
    );
    assert!(matches!(asts.as_slice()[6].atype, AstType::FunctionDefinition { .. }));
    assert_eq!(asts.as_slice()[7].atype, AstType::ErrorAst);
    assert_eq!(asts.as_slice()[last - 2].atype, AstType::ErrorAst);
    check_arena(&asts);
}

#[test]
fn missing_semicolon_is_reported_and_parsing_goes_on() {
    let source = "def fun f() { 1 2; }";
    let (asts, errors) = parse(source);
    assert_eq!(errors.len(), 1);
    assert_eq!(
        errors[0].error,
        SyntaxError::Expected { expected: TokenType::Semicolon, found: TokenType::Integer }
    );
    assert_eq!(errors[0].position, 7);
    assert_eq!(errors[0].span.start, 16);
    assert_eq!(asts.as_slice()[5].atype, AstType::FunctionBlock(vec![id(3), id(4)]));
    check_arena(&asts);
}

#[test]
fn missing_name_gives_an_error_node() {
    let source = "def fun () => 1;";
    let (asts, errors) = parse(source);
    let found: Vec<(SyntaxError, usize)> = errors.iter().map(|e| (e.error, e.position)).collect();
    let def = TokenType::Def;
    assert_eq!(
        found,
        vec![
            (SyntaxError::Expected { expected: TokenType::Iden, found: TokenType::OpenParen }, 2),
            (SyntaxError::Unexpected { found: TokenType::OpenParen }, 2),
            (SyntaxError::Expected { expected: def, found: TokenType::OpenParen }, 2),
            (SyntaxError::Expected { expected: def, found: TokenType::CloseParen }, 3),
            (SyntaxError::Expected { expected: def, found: TokenType::StrongArrowRight }, 4),
            (SyntaxError::Expected { expected: def, found: TokenType::Integer }, 5),
            (SyntaxError::Expected { expected: def, found: TokenType::Semicolon }, 6),
        ]
    );
    assert_eq!(asts.as_slice()[0].atype, AstType::ErrorAst);
    assert_eq!(asts.as_slice()[1].atype, AstType::ErrorAst);
    assert_eq!(asts.as_slice()[2].atype, AstType::FunctionDefinition { ftype: id(0), body: id(1) });
    check_arena(&asts);
}

#[test]
fn missing_parenthesis_is_reported() {
    let (asts, errors) = parse("def fun f => 1;");
    assert_eq!(
        errors[0].error,
        SyntaxError::Expected { expected: TokenType::OpenParen, found: TokenType::StrongArrowRight }
    );
    assert_eq!(asts.as_slice()[0].atype, AstType::Iden);
    assert_eq!(asts.as_slice()[1].atype, AstType::ErrorAst);
    check_arena(&asts);

    let (asts, errors) = parse("def fun f( => 1;");
    assert_eq!(
        errors[0].error,
        SyntaxError::Expected { expected: TokenType::CloseParen, found: TokenType::StrongArrowRight }
    );
    assert_eq!(asts.as_slice()[1].atype, AstType::FunctionParams);
    check_arena(&asts);
}

#[test]
fn def_without_fun_gives_an_error_node() {
    let (asts, errors) = parse("def x def fun f() => 1;");
    let found: Vec<(SyntaxError, usize)> = errors.iter().map(|e| (e.error, e.position)).collect();
    assert_eq!(
        found,
        vec![
            (SyntaxError::Expected { expected: TokenType::Fun, found: TokenType::Iden }, 1),
            (SyntaxError::Expected { expected: TokenType::Def, found: TokenType::Iden }, 1),
        ]
    );
    assert_eq!(asts.as_slice()[0].atype, AstType::ErrorAst);
    assert_eq!(asts.as_slice()[1].atype, AstType::ErrorAst);
    let last = asts.len() - 1;
    assert_eq!(asts.as_slice()[last - 1].atype, AstType::TopBlock(vec![id(0), id(1), id(last - 2)]));
    check_arena(&asts);
}

#[test]
fn sums_group_to_the_left() {
    let (asts, errors) = parse("def fun f() => 1 + 2 + 3;");
    assert_eq!(errors, vec![]);
    assert_eq!(asts.as_slice()[3].atype, AstType::NumberLiteral);
    assert_eq!(asts.as_slice()[4].atype, AstType::NumberLiteral);
    assert_eq!(asts.as_slice()[5].atype, AstType::Add { left: id(3), right: id(4) });
    assert_eq!(asts.as_slice()[6].atype, AstType::NumberLiteral);
    assert_eq!(asts.as_slice()[7].atype, AstType::Add { left: id(5), right: id(6) });
    assert_eq!(asts.as_slice()[8].atype, AstType::Return(id(7)));
    assert_eq!(asts.as_slice()[9].atype, AstType::FunctionBlock(vec![id(8)]));

    let (asts, errors) = parse("def fun f() => a + (b + c) + d() + 4;");
    assert_eq!(errors, vec![]);
    assert_eq!(asts.as_slice()[3].atype, AstType::Symbol);
    assert_eq!(asts.as_slice()[6].atype, AstType::Add { left: id(4), right: id(5) });
    assert_eq!(asts.as_slice()[7].atype, AstType::Add { left: id(3), right: id(6) });
    assert_eq!(asts.as_slice()[9].atype, AstType::FunctionCall { function: id(8), args: AstId::unresolved() });
    assert_eq!(asts.as_slice()[10].atype, AstType::Add { left: id(7), right: id(9) });
    assert_eq!(asts.as_slice()[12].atype, AstType::Add { left: id(10), right: id(11) });
}

#[test]
fn token_that_begins_no_value_is_reported() {
    let source = "def fun f() { + ; } def fun g() ) def fun h() => 1;";
    let (asts, errors) = parse(source);
    let found: Vec<(SyntaxError, usize)> = errors.iter().map(|e| (e.error, e.position)).collect();
    assert_eq!(
        found,
        vec![
            (SyntaxError::Unexpected { found: TokenType::Add }, 6),
            (SyntaxError::Unexpected { found: TokenType::CloseParen }, 14),
            (SyntaxError::Expected { expected: TokenType::Def, found: TokenType::CloseParen }, 14),
        ]
    );
    assert_eq!(errors[0].span.start, 14);
    let marked = asts.as_slice().iter().filter(|a| a.atype == AstType::ErrorAst).count();
    assert_eq!(marked, 3);
    let last = asts.len() - 1;
    assert!(matches!(asts.as_slice()[last - 2].atype, AstType::FunctionDefinition { .. }));
    check_arena(&asts);
}

#[test]
fn calls_and_parentheses() {
    let source = "def fun a() => b();";
    let (asts, errors) = parse(source);
    assert_eq!(errors, vec![]);
    assert_eq!(asts.as_slice()[3].atype, AstType::Symbol);
    assert_eq!(
        asts.as_slice()[4].atype,
        AstType::FunctionCall { function: id(3), args: AstId::unresolved() }
    );
    assert_eq!(text(source, &asts.as_slice()[4]), "b()");

    let (asts, errors) = parse("def fun a() => (1 + b()) + 2;");
    assert_eq!(errors, vec![]);
    assert_eq!(asts.as_slice()[3].atype, AstType::NumberLiteral);
    assert_eq!(asts.as_slice()[4].atype, AstType::Symbol);
    assert_eq!(asts.as_slice()[5].atype, AstType::FunctionCall { function: id(4), args: AstId::unresolved() });
    assert_eq!(asts.as_slice()[6].atype, AstType::Add { left: id(3), right: id(5) });
    assert_eq!(asts.as_slice()[7].atype, AstType::NumberLiteral);
    assert_eq!(asts.as_slice()[8].atype, AstType::Add { left: id(6), right: id(7) });
    check_arena(&asts);
}

#[test]
fn call_binds_more_strongly_than_addition() {
    let (asts, _) = parse("def fun a() => 1 + b();");
    assert_eq!(asts.as_slice()[3].atype, AstType::NumberLiteral);
    assert_eq!(asts.as_slice()[4].atype, AstType::Symbol);
    assert_eq!(asts.as_slice()[5].atype, AstType::FunctionCall { function: id(4), args: AstId::unresolved() });
    assert_eq!(asts.as_slice()[6].atype, AstType::Add { left: id(3), right: id(5) });
    assert_eq!(Parser::operator_precedence(TokenType::OpenParen), 50);
    assert_eq!(Parser::operator_precedence(TokenType::Add), 30);
    assert_eq!(Parser::operator_precedence(TokenType::Semicolon), 0);
}

#[test]
fn nested_definitions_and_returns() {
    let (asts, errors) = parse("def fun f() { def fun g() => 1; return return g(); }");
    assert_eq!(errors, vec![]);
    check_arena(&asts);
    let returns = asts.as_slice().iter().filter(|a| matches!(a.atype, AstType::Return(_))).count();
    assert_eq!(returns, 3);
    let definitions =
        asts.as_slice().iter().filter(|a| matches!(a.atype, AstType::FunctionDefinition { .. })).count();
    assert_eq!(definitions, 2);
}

#[test]
fn malformed_input_never_stops_the_parser() {
    let sources = [
        "def",
        "def fun",
        "def fun f",
        "def fun f(",
        "def fun f()",
        "def fun f() {",
        "def fun f() { return",
        "def fun f() =>",
        "def fun f() => (",
        "def fun f() => 1 +",
        "def fun f() => f(",
        "((((",
        "}}}} ; ; + +",
        "def def def",
        "def fun f() { } }",
        "def fun f() 1;",
        "return 1;",
        "\"open",
        "def fun f() => 1.5 + \"s\" + @;",
    ];
    for source in sources {
        let (asts, _) = parse(source);
        check_arena(&asts);
    }
}

#[test]
fn comments_never_reach_the_parser() {
    let (with, errors) = parse("def /* a */ fun f() // b\n => 1;\n");
    let (without, _) = parse("def fun f() => 1;");
    assert_eq!(errors, vec![]);
    assert_eq!(kinds(&with), kinds(&without));
}

#[test]
fn messages_of_syntax_errors() {
    assert_eq!(SyntaxError::UnexpectedEnd.message(), "unexpected end of input");
    assert_eq!(
        SyntaxError::Expected { expected: TokenType::Iden, found: TokenType::Eof }.message(),
        "expected another token"
    );
    assert_eq!(SyntaxError::Unexpected { found: TokenType::Add }.message(), "unexpected token");
}
