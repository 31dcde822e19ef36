use nnc::frontend::ir_gen::ir::{Ir, IrId, IrTag, Type};
use nnc::frontend::module::span::ModuleId;
use nnc::frontend::module::Module;
use nnc::middleend::bytecode::{Bytecode, BytecodeData, BytecodeId, BytecodeType, FunctionId, RelBytecodeId, ScopeId};
use nnc::middleend::prepare::{
    FunCtxGuard, Function, Prepare, PrepareError, Scope, ScopeCtxGuard, Symbol, SymbolId,
    SymbolLocation, SymbolType,
};
use nnc::util::indexed_vector::IndexedVec;

fn ir(i: usize) -> IrId {
    IrId::from(i)
}

fn scope(i: usize) -> ScopeId {
    ScopeId::from(i)
}

fn function(i: usize) -> FunctionId {
    FunctionId::from(i)
}

fn code(i: usize) -> BytecodeId {
    BytecodeId::from(i)
}

fn arena(nodes: Vec<Ir>) -> IndexedVec<IrTag, Ir> {
    IndexedVec::from(nodes)
}

fn lowered(source: &str) -> IndexedVec<IrTag, Ir> {
    let mut module = Module::new(ModuleId::from(0usize), source.to_string());
    module.lex();
    module.parse();
    module.gen_ir();
    module.ir
}

fn tags(code: &IndexedVec<nnc::middleend::bytecode::BytecodeTag, Bytecode>) -> Vec<&BytecodeData> {
    code.as_slice().iter().map(|b| &b.tag).collect()
}

/// Checks that the scopes and functions of `code` are nested and closed, and
/// that each is opened once and closed once.
fn check_balance(code: &[Bytecode]) {
    let mut open: Vec<&BytecodeData> = vec![];
    let mut scopes: Vec<usize> = vec![];
    let mut functions: Vec<usize> = vec![];
    for b in code {
        match &b.tag {
            BytecodeData::ScopeStart(id) => {
                assert!(!scopes.contains(&id.0));
                scopes.push(id.0);
                open.push(&b.tag);
            }
            BytecodeData::FunStart(id) => {
                assert!(!functions.contains(&id.0));
                functions.push(id.0);
                open.push(&b.tag);
            }
            BytecodeData::ScopeEnd(id) => {
                assert_eq!(open.pop(), Some(&BytecodeData::ScopeStart(*id)));
            }
            BytecodeData::FunEnd(id) => {
                assert_eq!(open.pop(), Some(&BytecodeData::FunStart(*id)));
            }
            _ => {}
        }
    }
    assert!(open.is_empty());
}

#[test]
fn prepares_one_function() {
    let irs = lowered("def fun main() => 1 + 2;");
    let mut prepare = Prepare::new(&irs);
    assert_eq!(prepare.prepare(), Ok(()));
    let (functions, scopes, code_table, symbols) = prepare.get_results();
    assert_eq!(
        tags(&code_table),
        vec![
            &BytecodeData::ScopeStart(scope(0)),
            &BytecodeData::FunStart(function(0)),
            &BytecodeData::ScopeStart(scope(1)),
            &BytecodeData::ScopeEnd(scope(1)),
            &BytecodeData::FunEnd(function(0)),
            &BytecodeData::ScopeEnd(scope(0)),
        ]
    );
    assert!(code_table.as_slice().iter().all(|b| b.typ == BytecodeType::Never));
    assert_eq!(
        functions.as_slice(),
        vec![Function { id: function(0), top_scope: scope(1), start: code(1), end: code(4) }]
    );
    assert_eq!(
        scopes.as_slice(),
        vec![
            Scope { id: scope(0), parent: None, symbols: vec![SymbolId::from(0usize)], exit_code: None },
            Scope { id: scope(1), parent: Some(scope(0)), symbols: vec![], exit_code: None },
        ]
    );
    assert_eq!(
        symbols.as_slice(),
        vec![Symbol {
            name: "main".to_string(),
            typ: SymbolType::Universal,
            loc: SymbolLocation::Global(code(1)),
        }]
    );
    check_balance(code_table.as_slice());
}

#[test]
fn function_is_known_before_its_definition() {
    let irs = lowered("def fun a() => b();\ndef fun b() => 1;");
    let mut prepare = Prepare::new(&irs);
    assert_eq!(prepare.prepare(), Ok(()));
    assert_eq!(prepare.symbols.as_slice()[0].name, "a");
    assert_eq!(prepare.symbols.as_slice()[1].name, "b");
    assert_eq!(prepare.scopes.as_slice()[0].symbols, vec![SymbolId::from(0usize), SymbolId::from(1usize)]);
    assert_eq!(prepare.functions.as_slice()[0].top_scope(), scope(1));
    assert_eq!(prepare.functions.as_slice()[1].top_scope(), scope(2));
    let inside_a = prepare.functions.as_slice()[0].top_scope();
    assert_eq!(prepare.find_symbol_full_helper("b", inside_a), Some(SymbolId::from(1usize)));
    assert_eq!(prepare.find_symbol_full_helper("a", inside_a), Some(SymbolId::from(0usize)));
    assert_eq!(prepare.find_symbol_in_scope("b", inside_a), None);
    assert_eq!(prepare.find_symbol_full_helper("c", inside_a), None);
    assert_eq!(prepare.symbols.as_slice()[1].loc, SymbolLocation::Global(code(5)));
    check_balance(prepare.code.as_slice());
}

#[test]
fn symbols_are_seen_from_below_only() {
    let irs = lowered("def fun a() => 1;\ndef fun b() => 2;");
    let mut prepare = Prepare::new(&irs);
    assert_eq!(prepare.prepare(), Ok(()));
    let local = prepare.symbols.push(Symbol::new(
        "local".to_string(),
        SymbolType::Universal,
        SymbolLocation::Undefined,
    ));
    prepare.scopes.get_mut(scope(1)).add_symbol(local);
    let shadow = prepare.symbols.push(Symbol::new(
        "b".to_string(),
        SymbolType::Universal,
        SymbolLocation::Undefined,
    ));
    prepare.scopes.get_mut(scope(1)).add_symbol(shadow);
    assert_eq!(prepare.find_symbol_full_helper("local", scope(1)), Some(local));
    assert_eq!(prepare.find_symbol_full_helper("local", scope(2)), None);
    assert_eq!(prepare.find_symbol_full_helper("local", scope(0)), None);
    assert_eq!(prepare.find_symbol_full_helper("b", scope(1)), Some(shadow));
    assert_eq!(prepare.find_symbol_full_helper("b", scope(2)), Some(SymbolId::from(1usize)));
    assert_eq!(prepare.find_symbol_full_helper("b", scope(0)), Some(SymbolId::from(1usize)));
    prepare.scope_stack.push(scope(1));
    assert_eq!(prepare.find_symbol_full("local"), Some(local));
    assert_eq!(prepare.find_symbol_full("a"), Some(SymbolId::from(0usize)));
}

#[test]
fn first_symbol_of_a_name_wins() {
    let irs = lowered("def fun f() => 1;\ndef fun f() => 2;");
    let mut prepare = Prepare::new(&irs);
    assert_eq!(prepare.prepare(), Ok(()));
    assert_eq!(prepare.symbols.len(), 2);
    assert_eq!(prepare.find_symbol_in_scope("f", scope(0)), Some(SymbolId::from(0usize)));
    assert_eq!(prepare.symbols.as_slice()[0].loc, SymbolLocation::Global(code(1)));
    assert_eq!(prepare.symbols.as_slice()[1].loc, SymbolLocation::Global(code(5)));
}

#[test]
fn reserved_and_errors_pass_into_the_bytecode() {
    let irs = arena(vec![
        Ir::Block(vec![ir(1), ir(2)]),
        Ir::Error("broken".to_string()),
        Ir::Reserved,
    ]);
    let mut prepare = Prepare::new(&irs);
    assert_eq!(prepare.prepare(), Ok(()));
    assert_eq!(
        tags(&prepare.code),
        vec![
            &BytecodeData::ScopeStart(scope(0)),
            &BytecodeData::Error("broken".to_string()),
            &BytecodeData::Reserved,
            &BytecodeData::ScopeEnd(scope(0)),
        ]
    );
    assert_eq!(prepare.functions.len(), 0);
    assert_eq!(prepare.symbols.len(), 0);
}

#[test]
fn empty_top_block() {
    let irs = arena(vec![Ir::Block(vec![])]);
    let mut prepare = Prepare::new(&irs);
    assert_eq!(prepare.prepare(), Ok(()));
    assert_eq!(
        tags(&prepare.code),
        vec![&BytecodeData::ScopeStart(scope(0)), &BytecodeData::ScopeEnd(scope(0))]
    );
}

/// Checks that the preparer holds the root scope with the symbols `symbols`,
/// opened and closed, and nothing else.
fn check_root_only(prepare: &Prepare, symbols: Vec<&str>) {
    assert_eq!(
        tags(&prepare.code),
        vec![&BytecodeData::ScopeStart(scope(0)), &BytecodeData::ScopeEnd(scope(0))]
    );
    assert_eq!(prepare.functions.len(), 0);
    let ids: Vec<SymbolId> = (0..symbols.len()).map(SymbolId::from).collect();
    assert_eq!(
        prepare.scopes.as_slice(),
        vec![Scope { id: scope(0), parent: None, symbols: ids, exit_code: None }]
    );
    let names: Vec<&str> = prepare.symbols.as_slice().iter().map(|s| s.name.as_str()).collect();
    assert_eq!(names, symbols);
    assert!(prepare.symbols.as_slice().iter().all(|s| s.loc == SymbolLocation::Undefined));
    assert_eq!(prepare.scope_stack, vec![]);
    assert_eq!(prepare.function_stack, vec![]);
}

#[test]
fn root_must_be_a_block() {
    let irs = arena(vec![]);
    let mut prepare = Prepare::new(&irs);
    assert_eq!(prepare.prepare(), Err(PrepareError::RootNotBlock));
    check_root_only(&prepare, vec![]);

    let irs = arena(vec![Ir::Number(1)]);
    let mut prepare = Prepare::new(&irs);
    assert_eq!(prepare.prepare(), Err(PrepareError::RootNotBlock));
    check_root_only(&prepare, vec![]);

    let irs = arena(vec![
        Ir::Error("found error AST".to_string()),
        Ir::Iden("f".to_string()),
        Ir::Block(vec![]),
        Ir::Deffun { iden: ir(1), params: ir(2), returns: ir(2), body: ir(2) },
    ]);
    let mut prepare = Prepare::new(&irs);
    assert_eq!(prepare.prepare(), Err(PrepareError::RootNotBlock));
    check_root_only(&prepare, vec![]);

    let irs = lowered("def fun f(");
    let mut prepare = Prepare::new(&irs);
    assert_eq!(prepare.prepare(), Ok(()));
    assert!(matches!(prepare.code.as_slice()[1].tag, BytecodeData::Error(_)));

    let irs = lowered("");
    let mut prepare = Prepare::new(&irs);
    assert_eq!(prepare.prepare(), Ok(()));
    check_root_only(&prepare, vec![]);
}

#[test]
fn fault_of_hoisting_leaves_the_symbols_before_it() {
    let irs = arena(vec![
        Ir::Block(vec![ir(3), ir(4), ir(5)]),
        Ir::Iden("f".to_string()),
        Ir::Block(vec![]),
        Ir::Deffun { iden: ir(1), params: ir(2), returns: ir(2), body: ir(2) },
        Ir::Deffun { iden: ir(2), params: ir(2), returns: ir(2), body: ir(2) },
        Ir::Deffun { iden: ir(1), params: ir(2), returns: ir(2), body: ir(2) },
    ]);
    let mut prepare = Prepare::new(&irs);
    assert_eq!(prepare.prepare(), Err(PrepareError::NameNotIden { ir: ir(2) }));
    check_root_only(&prepare, vec!["f"]);

    let irs = arena(vec![Ir::Block(vec![ir(7)])]);
    let mut prepare = Prepare::new(&irs);
    assert_eq!(prepare.prepare(), Err(PrepareError::MissingNode { ir: ir(7) }));
    check_root_only(&prepare, vec![]);

    let irs = arena(vec![
        Ir::Block(vec![ir(2)]),
        Ir::Iden("f".to_string()),
        Ir::Deffun { iden: ir(9), params: ir(1), returns: ir(1), body: ir(0) },
    ]);
    let mut prepare = Prepare::new(&irs);
    assert_eq!(prepare.prepare(), Err(PrepareError::MissingNode { ir: ir(9) }));
    check_root_only(&prepare, vec![]);

    let irs = arena(vec![
        Ir::Block(vec![ir(1), ir(2)]),
        Ir::Type(Type::U64),
        Ir::Deffun { iden: ir(0), params: ir(0), returns: ir(0), body: ir(0) },
    ]);
    let mut prepare = Prepare::new(&irs);
    assert_eq!(prepare.prepare(), Err(PrepareError::NameNotIden { ir: ir(0) }));
    check_root_only(&prepare, vec![]);
}

#[test]
fn fault_of_emission_leaves_what_was_emitted_before_it() {
    let irs = arena(vec![Ir::Block(vec![ir(1)]), Ir::Number(1)]);
    let mut prepare = Prepare::new(&irs);
    assert_eq!(prepare.prepare(), Err(PrepareError::InvalidTopLevel { ir: ir(1) }));
    check_root_only(&prepare, vec![]);

    for bad in [Ir::Number(1), Ir::Iden("g".to_string())] {
        let fault = if matches!(bad, Ir::Number(_)) {
            PrepareError::InvalidTopLevel { ir: ir(5) }
        } else {
            PrepareError::BodyNotBlock { ir: ir(5) }
        };
        let last = if matches!(bad, Ir::Number(_)) {
            ir(5)
        } else {
            ir(6)
        };
        let irs = arena(vec![
            Ir::Block(vec![ir(3), ir(4), last, ir(3)]),
            Ir::Iden("f".to_string()),
            Ir::Block(vec![]),
            Ir::Deffun { iden: ir(1), params: ir(2), returns: ir(2), body: ir(2) },
            Ir::Reserved,
            bad,
            Ir::Deffun { iden: ir(1), params: ir(2), returns: ir(2), body: ir(5) },
        ]);
        let mut prepare = Prepare::new(&irs);
        assert_eq!(prepare.prepare(), Err(fault));
        assert_eq!(
            tags(&prepare.code),
            vec![
                &BytecodeData::ScopeStart(scope(0)),
                &BytecodeData::FunStart(function(0)),
                &BytecodeData::ScopeStart(scope(1)),
                &BytecodeData::ScopeEnd(scope(1)),
                &BytecodeData::FunEnd(function(0)),
                &BytecodeData::Reserved,
                &BytecodeData::ScopeEnd(scope(0)),
            ]
        );
        assert_eq!(
            prepare.functions.as_slice(),
            vec![Function { id: function(0), top_scope: scope(1), start: code(1), end: code(4) }]
        );
        assert_eq!(prepare.scopes.len(), 2);
        let hoisted = prepare.symbols.len();
        assert_eq!(hoisted, if matches!(fault, PrepareError::BodyNotBlock { .. }) { 3 } else { 2 });
        assert_eq!(prepare.symbols.as_slice()[0].loc, SymbolLocation::Global(code(1)));
        assert!(prepare.symbols.as_slice()[1..].iter().all(|s| s.loc == SymbolLocation::Undefined));
        check_balance(prepare.code.as_slice());
    }

    let irs = arena(vec![
        Ir::Block(vec![ir(2)]),
        Ir::Iden("f".to_string()),
        Ir::Deffun { iden: ir(1), params: ir(1), returns: ir(1), body: ir(9) },
    ]);
    let mut prepare = Prepare::new(&irs);
    assert_eq!(prepare.prepare(), Err(PrepareError::MissingNode { ir: ir(9) }));
    check_root_only(&prepare, vec!["f"]);
}

#[test]
fn many_functions_stay_nested() {
    let irs = lowered("def fun a() => 1;\n}\ndef fun b() { return a(); }\ndef fun c() => b() + a();");
    let mut prepare = Prepare::new(&irs);
    assert_eq!(prepare.prepare(), Ok(()));
    assert_eq!(prepare.functions.len(), 3);
    assert_eq!(prepare.scopes.len(), 4);
    assert_eq!(prepare.code.len(), 15);
    assert!(matches!(prepare.code.as_slice()[5].tag, BytecodeData::Error(_)));
    check_balance(prepare.code.as_slice());
    for f in prepare.functions.as_slice().iter() {
        assert_eq!(prepare.code.as_slice()[f.start.0].tag, BytecodeData::FunStart(f.id));
        assert_eq!(prepare.code.as_slice()[f.end.0].tag, BytecodeData::FunEnd(f.id));
        assert_eq!(prepare.scopes.as_slice()[f.top_scope.0].parent, Some(scope(0)));
    }
}

#[test]
fn relative_places() {
    assert_eq!(RelBytecodeId::new(code(3), code(10)), RelBytecodeId(7));
    assert_eq!(RelBytecodeId::new(code(10), code(3)), RelBytecodeId(-7));
    assert_eq!(RelBytecodeId::new(code(5), code(5)), RelBytecodeId(0));
    assert_eq!(RelBytecodeId::new(code(isize::MAX as usize + 1), code(0)), RelBytecodeId(isize::MIN));
    assert_eq!(RelBytecodeId::new(code(0), code(isize::MAX as usize)), RelBytecodeId(isize::MAX));
    assert_eq!(RelBytecodeId(7).into_bytecode(code(3)), code(10));
    assert_eq!(RelBytecodeId(-7).into_bytecode(code(10)), code(3));
    assert_eq!(RelBytecodeId(isize::MIN).into_bytecode(code(isize::MAX as usize + 1)), code(0));
    assert_eq!(RelBytecodeId::new(code(3), code(10)).into_bytecode(code(3)), code(10));
    assert_eq!(RelBytecodeId::new(code(10), code(3)).into_bytecode(code(10)), code(3));
}

#[test]
fn small_parts() {
    assert_eq!(
        Bytecode::new(BytecodeData::Reserved),
        Bytecode { tag: BytecodeData::Reserved, typ: BytecodeType::Never }
    );
    let mut symbol = Symbol::new("x".to_string(), SymbolType::Universal, SymbolLocation::Undefined);
    symbol.fix_location(SymbolLocation::EndOfScope(RelBytecodeId(-2)));
    assert_eq!(symbol.loc, SymbolLocation::EndOfScope(RelBytecodeId(-2)));
    assert_eq!(symbol.name, "x");
    let mut s = Scope::new(scope(4), Some(scope(1)));
    assert_eq!(s.id(), scope(4));
    assert_eq!(s.parent, Some(scope(1)));
    s.add_symbol(SymbolId::from(2usize));
    s.add_symbol(SymbolId::from(0usize));
    assert_eq!(s.symbols, vec![SymbolId::from(2usize), SymbolId::from(0usize)]);
    assert_eq!(s.exit_code, None);
    let guard = ScopeCtxGuard::new(scope(3));
    assert!(guard.pop);
    assert_eq!(guard.manual(), scope(3));
    let guard = FunCtxGuard::new(function(2));
    assert!(guard.pop);
    assert_eq!(guard.manual(), function(2));
}
