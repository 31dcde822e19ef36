use nnc::frontend::ir_gen::ir::{Ir, IrId, IrTag, Type};
use nnc::frontend::ir_gen::lowering::{IrGeneratorError, LoweringError};
use nnc::frontend::ir_gen::text::{digit_value, parse_literal, string_of};
use nnc::frontend::ir_gen::IrGenerator;
use nnc::frontend::lexer::token::{Token, TokenType};
use nnc::frontend::lexer::{sanitize, Lexer};
use nnc::frontend::module::span::{ModuleId, Span};
use nnc::frontend::parser::ast::{Ast, AstId, AstTag, AstType};
use nnc::frontend::parser::Parser;
use nnc::util::indexed_vector::IndexedVec;

fn ir(i: usize) -> IrId {
    IrId::from(i)
}

fn span(start: usize, len: usize) -> Span {
    Span { module_idx: ModuleId::from(0usize), start, len, line: 0, col: 0 }
}

fn parse(source: &str) -> IndexedVec<AstTag, Ast> {
    let tokens = sanitize(&Lexer::new(ModuleId::from(0usize), source.as_bytes()).lex());
    let eof = Token { ttype: TokenType::Eof, span: span(source.len(), 0) };
    let mut parser = Parser::new(&tokens, eof);
    parser.parse();
    parser.get_results().0
}

fn lower_tree(asts: &IndexedVec<AstTag, Ast>, source: &str) -> (IndexedVec<IrTag, Ir>, Vec<IrGeneratorError>) {
    let mut generator = IrGenerator::new(asts, source.as_bytes());
    generator.generate();
    generator.get_results()
}

fn lower(source: &str) -> (IndexedVec<IrTag, Ir>, Vec<IrGeneratorError>) {
    let (irs, errors) = lower_tree(&parse(source), source);
    let marked = irs.as_slice().iter().filter(|n| matches!(n, Ir::Error(_))).count();
    assert_eq!(marked, errors.len());
    (irs, errors)
}

fn tree(nodes: Vec<(AstType, Span)>) -> IndexedVec<AstTag, Ast> {
    let mut asts = IndexedVec::new();
    for (i, (atype, span)) in nodes.into_iter().enumerate() {
        asts.push(Ast { id: AstId::from(i), atype, span });
    }
    asts
}

/// Checks what the generator promises of every arena: nothing is left
/// reserved, a block refers only to nodes behind it, and every other node
/// only to nodes before it or to what is not resolved yet.
fn check_order(irs: &IndexedVec<IrTag, Ir>) {
    assert!(irs.len() >= 1);
    for (i, node) in irs.as_slice().iter().enumerate() {
        let operands: Vec<IrId> = match node {
            Ir::Reserved => panic!("a place is left reserved"),
            Ir::Block(v) => {
                for c in v {
                    assert!(i < c.0 && c.0 < irs.len());
                }
                assert!(v.windows(2).all(|pair| pair[0].0 < pair[1].0));
                vec![]
            }
            Ir::Type(Type::Fun { params, returns }) => vec![*params, *returns],
            Ir::Value { value, typ } => vec![*value, *typ],
            Ir::Add { lhs, rhs } => vec![*lhs, *rhs],
            Ir::Return { value, block } => {
                assert!(block.is_unresolved());
                vec![*value]
            }
            Ir::Call { fun, args } => {
                assert!(args.is_unresolved());
                vec![*fun]
            }
            Ir::Deffun { iden, params, returns, body } => vec![*iden, *params, *returns, *body],
            _ => vec![],
        };
        for c in operands {
            assert!(c.0 < i);
        }
    }
}

#[test]
fn lowers_function_shorthand() {
    let (irs, errors) = lower("def fun main() => 1 + 2;");
    assert_eq!(errors, vec![]);
    assert_eq!(
        irs.as_slice(),
        vec![
            Ir::Block(vec![ir(13)]),
            Ir::Iden("main".to_string()),
            Ir::Block(vec![]),
            Ir::Type(Type::U64),
            Ir::Block(vec![ir(12)]),
            Ir::Type(Type::U64),
            Ir::Number(1),
            Ir::Value { value: ir(6), typ: ir(5) },
            Ir::Type(Type::U64),
            Ir::Number(2),
            Ir::Value { value: ir(9), typ: ir(8) },
            Ir::Add { lhs: ir(7), rhs: ir(10) },
            Ir::Return { value: ir(11), block: IrId::unresolved() },
            Ir::Deffun { iden: ir(1), params: ir(2), returns: ir(3), body: ir(4) },
        ]
    );
    check_order(&irs);
}

#[test]
fn braces_and_arrow_lower_alike() {
    let (long, long_errors) = lower("def fun f() { return 5; }");
    let (short, short_errors) = lower("def fun f() => 5;");
    assert_eq!(long_errors, vec![]);
    assert_eq!(short_errors, vec![]);
    assert_eq!(long, short);
    assert_eq!(long.as_slice()[3], Ir::Type(Type::U64));
    assert_eq!(long.as_slice()[4], Ir::Block(vec![ir(8)]));
    assert_eq!(long.as_slice()[8], Ir::Return { value: ir(7), block: IrId::unresolved() });
    assert_eq!(long.as_slice()[9], Ir::Deffun { iden: ir(1), params: ir(2), returns: ir(3), body: ir(4) });
}

#[test]
fn call_lowers_its_callee_only() {
    let (irs, errors) = lower("def fun a() => b();");
    assert_eq!(errors, vec![]);
    assert_eq!(irs.as_slice()[5], Ir::Symbol("b".to_string()));
    assert_eq!(irs.as_slice()[6], Ir::Call { fun: ir(5), args: IrId::unresolved() });
    assert_eq!(irs.as_slice()[7], Ir::Return { value: ir(6), block: IrId::unresolved() });
    check_order(&irs);
}

#[test]
fn literals_in_every_base() {
    let (irs, errors) = lower("def fun f() => 0x1F + 0b101 + 0o17 + 1_000 + 1'0;");
    assert_eq!(errors, vec![]);
    let numbers: Vec<u64> = irs
        .as_slice()
        .iter()
        .filter_map(|n| match n {
            Ir::Number(n) => Some(*n),
            _ => None,
        })
        .collect();
    assert_eq!(numbers, vec![31, 5, 15, 1000, 10]);
    check_order(&irs);
}

#[test]
fn literal_values() {
    assert_eq!(parse_literal(b"0"), Some(0));
    assert_eq!(parse_literal(b"007"), Some(7));
    assert_eq!(parse_literal(b"18446744073709551615"), Some(u64::MAX));
    assert_eq!(parse_literal(b"18446744073709551616"), None);
    assert_eq!(parse_literal(b"99999999999999999999999"), None);
    assert_eq!(parse_literal(b"0xFFFFFFFFFFFFFFFF"), Some(u64::MAX));
    assert_eq!(parse_literal(b"0x10000000000000000"), None);
    assert_eq!(parse_literal(b"0xff"), Some(255));
    assert_eq!(parse_literal(b"0b1111_0000"), Some(240));
    assert_eq!(parse_literal(b"0o777"), Some(511));
    assert_eq!(parse_literal(b"1_2_3"), Some(123));
    assert_eq!(parse_literal(b""), None);
    assert_eq!(parse_literal(b"x"), None);
    assert_eq!(parse_literal(b"+1"), None);
    assert_eq!(parse_literal(b"1.5"), None);
    assert_eq!(parse_literal(b"12a"), None);
    assert_eq!(parse_literal(b"0x"), None);
    assert_eq!(parse_literal(b"0x_"), None);
    assert_eq!(parse_literal(b"0b2"), None);
    assert_eq!(parse_literal(b"0o8"), None);
    assert_eq!(digit_value(b'7'), 7);
    assert_eq!(digit_value(b'a'), 10);
    assert_eq!(digit_value(b'F'), 15);
    assert_eq!(digit_value(b'z'), 0);
}

#[test]
fn names_are_read_byte_by_byte() {
    assert_eq!(string_of(b"main"), "main");
    assert_eq!(string_of(b""), "");
    assert_eq!(string_of(&[0x61, 0xE9]), "a\u{e9}");
}

#[test]
fn number_too_large_is_an_error_of_the_generator() {
    let source = "def fun f() => 18446744073709551616;";
    let (irs, errors) = lower(source);
    assert_eq!(errors.len(), 1);
    assert_eq!(errors[0].error, LoweringError::InvalidNumber);
    assert_eq!(errors[0].ast, AstId::from(3usize));
    assert_eq!(
        errors[0].span,
        Span { module_idx: ModuleId::from(0usize), start: 15, len: 20, line: 0, col: 15 }
    );
    assert_eq!(irs.as_slice()[5], Ir::Error("error while parsing number".to_string()));
    assert_eq!(irs.as_slice()[6], Ir::Return { value: ir(5), block: IrId::unresolved() });
    check_order(&irs);
}

#[test]
fn error_nodes_are_lowered_to_errors_and_siblings_go_on() {
    let (irs, errors) = lower("} def fun f() => 1;");
    assert_eq!(errors.len(), 1);
    assert_eq!(errors[0].error, LoweringError::ErrorAst);
    assert_eq!(errors[0].ast, AstId::from(0usize));
    assert_eq!(irs.as_slice()[1], Ir::Error("found error AST".to_string()));
    assert!(matches!(irs.as_slice()[irs.len() - 1], Ir::Deffun { .. }));
    assert_eq!(irs.as_slice()[0], Ir::Block(vec![ir(1), ir(irs.len() - 1)]));
    check_order(&irs);
}

#[test]
fn broken_definition_is_reported() {
    let (irs, errors) = lower("def fun () => 1;");
    let found: Vec<LoweringError> = errors.iter().map(|e| e.error).collect();
    assert_eq!(
        found,
        vec![
            LoweringError::ExpectedFunctionType,
            LoweringError::ErrorAst,
            LoweringError::ErrorAst,
            LoweringError::ErrorAst,
            LoweringError::ErrorAst,
            LoweringError::ErrorAst,
        ]
    );
    assert_eq!(errors[0].ast, AstId::from(0usize));
    assert_eq!(irs.as_slice()[0], Ir::Block(vec![ir(1), ir(2), ir(3), ir(4), ir(5), ir(6)]));
    assert_eq!(irs.as_slice()[1], Ir::Error("expected function type".to_string()));
    assert_eq!(irs.as_slice()[2], Ir::Error("found error AST".to_string()));
    check_order(&irs);

    let (irs, errors) = lower("def fun f() 1;");
    assert_eq!(errors[0].error, LoweringError::ExpectedFunctionBody);
    assert_eq!(errors[0].ast, AstId::from(3usize));
    assert_eq!(irs.as_slice()[1], Ir::Error("expected function body".to_string()));
    check_order(&irs);
}

#[test]
fn statement_cut_off_by_the_end_lowers_to_an_error() {
    let (irs, errors) = lower("def fun f() => 1");
    assert_eq!(errors.len(), 1);
    assert_eq!(errors[0].error, LoweringError::ErrorAst);
    assert_eq!(
        irs.as_slice(),
        vec![Ir::Block(vec![ir(1)]), Ir::Error("found error AST".to_string())]
    );
}

#[test]
fn program_around_an_error_lowers_to_an_error() {
    let asts = tree(vec![
        (AstType::ErrorAst, span(0, 0)),
        (AstType::Program(AstId::from(0usize)), span(0, 0)),
    ]);
    let (irs, errors) = lower_tree(&asts, "");
    assert_eq!(errors.len(), 1);
    assert_eq!(errors[0].error, LoweringError::ErrorAst);
    assert_eq!(irs.as_slice(), vec![Ir::Error("found error AST".to_string())]);
}

#[test]
fn empty_program_lowers_to_an_empty_block() {
    let (irs, errors) = lower("");
    assert_eq!(errors, vec![]);
    assert_eq!(irs.as_slice(), vec![Ir::Block(vec![])]);
}

#[test]
fn function_type_out_of_place() {
    let asts = tree(vec![
        (AstType::Iden, span(0, 1)),
        (AstType::FunctionParams, span(1, 2)),
        (
            AstType::FunctionType {
                name: AstId::from(0usize),
                constant_params: AstId::unresolved(),
                params: AstId::from(1usize),
            },
            span(0, 3),
        ),
        (AstType::Program(AstId::from(2usize)), span(0, 3)),
    ]);
    let (irs, errors) = lower_tree(&asts, "f()");
    assert_eq!(errors.len(), 1);
    assert_eq!(errors[0].error, LoweringError::FunctionTypeOutOfPlace);
    assert_eq!(irs.as_slice(), vec![Ir::Error("found function type where it is not available".to_string())]);
}

#[test]
fn malformed_trees_give_errors() {
    let forward = tree(vec![
        (AstType::Return(AstId::from(1usize)), span(0, 1)),
        (AstType::Program(AstId::from(0usize)), span(0, 1)),
    ]);
    let (irs, errors) = lower_tree(&forward, "1");
    assert_eq!(errors.len(), 1);
    assert_eq!(errors[0].error, LoweringError::MalformedAst);
    assert_eq!(errors[0].ast, AstId::from(1usize));
    assert_eq!(
        irs.as_slice(),
        vec![
            Ir::Error("malformed AST".to_string()),
            Ir::Return { value: ir(0), block: IrId::unresolved() },
        ]
    );
    check_order(&irs);

    let outside = tree(vec![
        (AstType::NumberLiteral, span(5, 3)),
        (AstType::Symbol, span(0, 9)),
        (AstType::Add { left: AstId::from(0usize), right: AstId::from(1usize) }, span(0, 1)),
    ]);
    let (irs, errors) = lower_tree(&outside, "12");
    assert_eq!(errors.len(), 2);
    assert_eq!(errors[0].error, LoweringError::MalformedAst);
    assert_eq!(errors[1].error, LoweringError::MalformedAst);
    assert_eq!(irs.as_slice()[2], Ir::Add { lhs: ir(0), rhs: ir(1) });
    check_order(&irs);
}

#[test]
fn shared_children_are_lowered_each_time() {
    let asts = tree(vec![
        (AstType::NumberLiteral, span(0, 1)),
        (AstType::Add { left: AstId::from(0usize), right: AstId::from(0usize) }, span(0, 1)),
        (AstType::Block(vec![AstId::from(1usize), AstId::from(0usize)]), span(0, 1)),
    ]);
    let (irs, errors) = lower_tree(&asts, "7");
    assert_eq!(errors, vec![]);
    assert_eq!(irs.as_slice()[0], Ir::Block(vec![ir(7), ir(10)]));
    assert_eq!(irs.as_slice()[7], Ir::Add { lhs: ir(3), rhs: ir(6) });
    assert_eq!(irs.len(), 11);
    check_order(&irs);
}

#[test]
fn messages_of_lowering_errors() {
    assert_eq!(LoweringError::ErrorAst.message(), "found error AST");
    assert_eq!(LoweringError::InvalidNumber.message(), "error while parsing number");
    assert_eq!(LoweringError::MalformedAst.message(), "malformed AST");
    assert_eq!(LoweringError::ExpectedFunctionType.message(), "expected function type");
    assert_eq!(LoweringError::ExpectedFunctionBody.message(), "expected function body");
    assert_eq!(
        LoweringError::FunctionTypeOutOfPlace.message(),
        "found function type where it is not available"
    );
}
