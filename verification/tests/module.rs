use nnc::compiler::Compiler;
use nnc::frontend::ir_gen::ir::Ir;
use nnc::frontend::lexer::token::TokenType;
use nnc::frontend::module::span::{ModuleId, Span};
use nnc::frontend::module::Module;
use nnc::frontend::parser::ast::AstType;
use nnc::middleend::prepare::PrepareError;
use nnc::util::indexed_vector::{IndexedVec, IndexedVecIndex};

#[derive(Debug, PartialEq, Eq)]
struct Tag;

#[test]
fn stages_run_in_order() {
    let mut module = Module::new(ModuleId::from(2usize), "def fun main() => 1 + 2;\n".to_string());
    assert_eq!(module.source(), "def fun main() => 1 + 2;\n");
    assert_eq!(module.tokens().len(), 0);
    module.lex();
    assert_eq!(module.tokens().len(), 11);
    assert_eq!(module.tokens()[10].ttype, TokenType::LineBreak);
    assert!(module.tokens().iter().all(|t| t.span.module_idx == ModuleId::from(2usize)));
    module.parse();
    assert_eq!(module.parser_errors, vec![]);
    assert_eq!(module.ast_nodes().len(), 11);
    assert!(matches!(module.ast_nodes().as_slice()[10].atype, AstType::Program(_)));
    module.gen_ir();
    assert_eq!(module.ir_errors, vec![]);
    assert_eq!(module.ir().len(), 14);
    assert!(matches!(module.ir().as_slice()[0], Ir::Block(_)));
    assert_eq!(module.prepare(), Ok(()));
    assert_eq!(module.code.len(), 6);
    assert_eq!(module.functions.len(), 1);
    assert_eq!(module.scopes.len(), 2);
    assert_eq!(module.symbols.as_slice()[0].name, "main");
}

#[test]
fn a_stage_run_again_replaces_what_it_left() {
    let mut module = Module::new(ModuleId::from(0usize), "def fun f() => 1;".to_string());
    module.lex();
    module.lex();
    assert_eq!(module.tokens().len(), 8);
    module.parse();
    module.parse();
    assert_eq!(module.ast_nodes().len(), 9);
    module.gen_ir();
    module.gen_ir();
    assert_eq!(module.ir().len(), 10);
    assert_eq!(module.prepare(), Ok(()));
    assert_eq!(module.prepare(), Ok(()));
    assert_eq!(module.code.len(), 6);
    assert_eq!(module.symbols.len(), 1);
}

#[test]
fn end_of_input_token() {
    let module = Module::new(ModuleId::from(1usize), "ab\ncd".to_string());
    assert_eq!(
        *module.eof_token(),
        nnc::frontend::lexer::token::Token {
            ttype: TokenType::Eof,
            span: Span { module_idx: ModuleId::from(1usize), start: 5, len: 0, line: 1, col: 2 },
        }
    );
    let empty = Module::new(ModuleId::from(0usize), String::new());
    assert_eq!(empty.eof_token().span.start, 0);
    assert_eq!(empty.eof_token().span.line, 0);
    assert_eq!(
        module.new_span(1, 4, 0, 1),
        Span { module_idx: ModuleId::from(1usize), start: 1, len: 3, line: 0, col: 1 }
    );
}

#[test]
fn module_with_errors_still_has_a_tree() {
    let mut module = Module::new(ModuleId::from(0usize), "def fun f() { 1 2 } @".to_string());
    module.lex();
    module.parse();
    assert!(module.parser_errors.len() >= 1);
    assert!(matches!(module.ast_nodes().as_slice()[module.ast_nodes().len() - 1].atype, AstType::Program(_)));
    module.gen_ir();
    assert!(module.ir_errors.len() >= 1);
    assert_eq!(module.prepare(), Ok(()));
}

#[test]
fn module_that_ends_too_early_is_prepared_all_the_same() {
    let source = "def fun a() => 1;\ndef fun f() {";
    let mut module = Module::new(ModuleId::from(0usize), source.to_string());
    module.lex();
    module.parse();
    assert_eq!(module.parser_errors.len(), 1);
    module.gen_ir();
    assert_eq!(module.ir_errors.len(), 1);
    assert_eq!(module.prepare(), Ok(()));
    assert_eq!(module.functions.len(), 1);
    assert_eq!(module.code.len(), 7);
}

#[test]
fn preparer_stops_at_a_tree_without_its_block() {
    let mut module = Module::new(ModuleId::from(0usize), "1".to_string());
    module.ir = IndexedVec::from(vec![Ir::Number(1)]);
    assert_eq!(module.prepare(), Err(PrepareError::RootNotBlock));
    assert_eq!(module.code.len(), 2);
    assert_eq!(module.scopes.len(), 1);
    assert_eq!(module.functions.len(), 0);
    assert_eq!(module.symbols.len(), 0);
}

#[test]
fn module_without_tokens_is_empty_at_every_stage() {
    let mut module = Module::new(ModuleId::from(0usize), "  ".to_string());
    module.lex();
    assert_eq!(module.tokens().len(), 0);
    module.parse();
    assert_eq!(module.parser_errors.len(), 0);
    assert_eq!(module.ast_nodes().len(), 2);
    module.gen_ir();
    assert_eq!(module.ir_errors.len(), 0);
    assert_eq!(module.ir().len(), 1);
    assert_eq!(module.prepare(), Ok(()));
    assert_eq!(module.code.len(), 2);
    assert_eq!(module.functions.len(), 0);
}

#[test]
fn compiler_hands_out_modules_in_order() {
    let mut compiler = Compiler::new();
    assert_eq!(compiler.modules.len(), 0);
    let a = compiler.module_from_string("def fun a() => 1;".to_string());
    let b = compiler.module_from_string("def fun b() => 2;".to_string());
    assert_eq!(a, ModuleId::from(0usize));
    assert_eq!(b, ModuleId::from(1usize));
    assert_eq!(compiler.modules.len(), 2);
    assert_eq!(compiler.modules.get(a).id, a);
    assert_eq!(compiler.modules.get(b).source(), "def fun b() => 2;");
    let module = compiler.modules.get_mut(b);
    module.lex();
    assert_eq!(module.tokens()[0].span.module_idx, b);
}

#[test]
fn arena_gives_out_handles_in_order() {
    let mut arena: IndexedVec<Tag, u32> = IndexedVec::new();
    assert_eq!(arena.len(), 0);
    assert_eq!(arena.first(), None);
    let a = arena.push(10);
    let b = arena.push(20);
    assert_eq!(a.0, 0);
    assert_eq!(b.0, 1);
    assert_eq!(*arena.get(a), 10);
    assert_eq!(*arena.get(b), 20);
    assert_eq!(arena.first(), Some(&10));
    arena.set(a, 11);
    let c = arena.push(30);
    assert_eq!(c.0, 2);
    assert_eq!(*arena.get(a), 11);
    assert_eq!(*arena.get(b), 20);
    assert!(arena.valid_index(c));
    assert!(!arena.valid_index(IndexedVecIndex::from(3usize)));
    assert!(!arena.valid_index(IndexedVecIndex::unresolved()));
    assert_eq!(arena, IndexedVec::from(vec![11, 20, 30]));
}

#[test]
fn handles_compare_by_position() {
    let a: IndexedVecIndex<Tag> = IndexedVecIndex::from(4usize);
    let b: IndexedVecIndex<Tag> = IndexedVecIndex::from(4u32);
    let c: IndexedVecIndex<Tag> = IndexedVecIndex::from(5usize);
    assert_eq!(a, b);
    assert_ne!(a, c);
    let copy = a;
    assert_eq!(copy.clone(), a);
    assert!(!a.is_unresolved());
    assert!(IndexedVecIndex::<Tag>::unresolved().is_unresolved());
    assert_eq!(IndexedVecIndex::<Tag>::unresolved().0, usize::MAX);
}

#[test]
fn compile_runs_every_stage() {
    let c = nnc::compile("def fun a() => b();\ndef fun b() => 1;\n".to_string());
    assert_eq!(c.modules.len(), 1);
    let module = c.modules.get(ModuleId::from(0usize));
    assert_eq!(module.id, ModuleId::from(0usize));
    assert_eq!(module.tokens().len(), 20);
    assert_eq!(module.parser_errors, vec![]);
    assert_eq!(module.ir_errors, vec![]);
    assert_eq!(module.functions.len(), 2);
    assert_eq!(module.symbols.as_slice()[1].name, "b");
    assert_eq!(module.code.len(), 10);
}

#[test]
fn compile_never_stops() {
    for source in ["", "}", "def", "def fun f(", "\"open", "def fun f() { 1 2 @ }", "€ 0x 1.2.3"] {
        let c = nnc::compile(source.to_string());
        let module = c.modules.get(ModuleId::from(0usize));
        assert_eq!(module.source(), source);
        assert!(module.ast_nodes().len() >= 2);
        assert!(module.ir().len() >= 1);
        assert!(module.code.len() >= 2);
        assert_eq!(module.scopes.len(), module.functions.len() + 1);
    }
}
