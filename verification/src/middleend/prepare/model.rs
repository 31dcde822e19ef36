//! What the preparer makes of an intermediate representation, as
//! mathematics: the fault that stops it, or the tables that it fills.
use crate::frontend::ir_gen::ir::{Ir, IrId};
use crate::middleend::bytecode::{
    Bytecode, BytecodeData, BytecodeId, BytecodeType, FunctionId, Marker, ScopeId,
};
use crate::middleend::prepare::{
    Function, PrepareError, Scope, ScopeView, Symbol, SymbolId, SymbolLocation, SymbolType,
};
use vstd::prelude::*;

verus! {

/// The scopes of an arena, each by what it says.
pub open spec fn scopes_of(scopes: Seq<Scope>) -> Seq<ScopeView> {
    Seq::new(scopes.len(), |i: int| scopes[i]@)
}

/// Appending to an arena of scopes appends to what they say.
pub proof fn lemma_scopes_of_push(scopes: Seq<Scope>, scope: Scope)
    ensures
        scopes_of(scopes.push(scope)) == scopes_of(scopes).push(scope@),
{
    assert(scopes_of(scopes.push(scope)) =~= scopes_of(scopes).push(scope@));
}

/// Overwriting a scope of an arena overwrites what it says.
pub proof fn lemma_scopes_of_update(scopes: Seq<Scope>, i: int, scope: Scope)
    requires
        0 <= i < scopes.len(),
    ensures
        scopes_of(scopes.update(i, scope)) == scopes_of(scopes).update(i, scope@),
{
    assert(scopes_of(scopes.update(i, scope)) =~= scopes_of(scopes).update(i, scope@));
}

/// The `n` handles of symbols from position `first` on.
pub open spec fn symbols_from(first: int, n: nat) -> Seq<SymbolId> {
    Seq::new(n, |k: int| SymbolId::at(first + k))
}

/// The scopes among what is open, outermost first.
pub open spec fn open_scopes(open: Seq<Marker>) -> Seq<ScopeId>
    decreases open.len(),
{
    if open.len() == 0 {
        Seq::empty()
    } else {
        match open.last() {
            Marker::Scope(id) => open_scopes(open.drop_last()).push(id),
            Marker::Fun(_) => open_scopes(open.drop_last()),
        }
    }
}

/// The functions among what is open, outermost first.
pub open spec fn open_functions(open: Seq<Marker>) -> Seq<FunctionId>
    decreases open.len(),
{
    if open.len() == 0 {
        Seq::empty()
    } else {
        match open.last() {
            Marker::Fun(id) => open_functions(open.drop_last()).push(id),
            Marker::Scope(_) => open_functions(open.drop_last()),
        }
    }
}

/// Whether `scopes` can be the content of the arena of scopes beside an arena
/// of `symbols` symbols: each scope carries its own handle, its parent was
/// made before it, and its symbols exist.
pub open spec fn scopes_wf(scopes: Seq<ScopeView>, symbols: int) -> bool {
    forall|i: int|
        0 <= i < scopes.len() ==> {
            let scope = #[trigger] scopes[i];
            &&& scope.id.0 == i
            &&& scope.parent is Some ==> scope.parent->Some_0.0 < i
            &&& forall|k: int|
                0 <= k < scope.symbols.len() ==> (#[trigger] scope.symbols[k]).0 < symbols
        }
}

/// Whether `functions` can be the content of the arena of functions beside
/// an arena of `scopes` scopes.
pub open spec fn functions_wf(functions: Seq<Function>, scopes: int) -> bool {
    forall|i: int|
        0 <= i < functions.len() ==> (#[trigger] functions[i]).id.0 == i
            && functions[i].top_scope.0 < scopes
}

/// Whether every start of a scope in `code` opens one of `scopes` scopes.
pub open spec fn scope_starts_known(code: Seq<Bytecode>, scopes: int) -> bool {
    forall|i: int|
        0 <= i < code.len() && (#[trigger] code[i]).tag is ScopeStart
            ==> code[i].tag->ScopeStart_0.0 < scopes
}

/// Whether every start of a function in `code` opens one of `functions`
/// functions.
pub open spec fn function_starts_known(code: Seq<Bytecode>, functions: int) -> bool {
    forall|i: int|
        0 <= i < code.len() && (#[trigger] code[i]).tag is FunStart ==> code[i].tag->FunStart_0.0
            < functions
}

/// The four tables that the preparer fills.
pub struct Tables {
    pub code: Seq<Bytecode>,
    pub functions: Seq<Function>,
    pub scopes: Seq<ScopeView>,
    pub symbols: Seq<Symbol>,
}

impl Tables {
    /// Whether the tables hold the same as `other`.
    pub open spec fn same_as(self, other: Tables) -> bool {
        &&& self.code =~= other.code
        &&& self.functions =~= other.functions
        &&& self.scopes =~= other.scopes
        &&& self.symbols =~= other.symbols
    }
}

/// The bytecode `data`, which yields no value.
pub open spec fn marker(data: BytecodeData) -> Bytecode {
    Bytecode { tag: data, typ: BytecodeType::Never }
}

/// What is wrong with the element `elem` of the top block when its name is
/// hoisted: it does not exist, or it defines a function whose name does not
/// exist or is no name.
pub open spec fn hoist_fault(irs: Seq<Ir>, elem: IrId) -> Option<PrepareError> {
    if elem.0 >= irs.len() {
        Some(PrepareError::MissingNode { ir: elem })
    } else {
        match irs[elem.0 as int] {
            Ir::Deffun { iden, .. } => if iden.0 >= irs.len() {
                Some(PrepareError::MissingNode { ir: iden })
            } else if !(irs[iden.0 as int] is Iden) {
                Some(PrepareError::NameNotIden { ir: iden })
            } else {
                None
            },
            _ => None,
        }
    }
}

/// What is wrong with the element `elem` of the top block when it is
/// emitted: it defines a function whose body does not exist or is no block,
/// or it is nothing that may stand at the top level.
pub open spec fn emit_fault(irs: Seq<Ir>, elem: IrId) -> Option<PrepareError> {
    if elem.0 >= irs.len() {
        Some(PrepareError::MissingNode { ir: elem })
    } else {
        match irs[elem.0 as int] {
            Ir::Deffun { body, .. } => if body.0 >= irs.len() {
                Some(PrepareError::MissingNode { ir: body })
            } else if !(irs[body.0 as int] is Block) {
                Some(PrepareError::BodyNotBlock { ir: body })
            } else {
                None
            },
            Ir::Reserved => None,
            Ir::Error(_) => None,
            _ => Some(PrepareError::InvalidTopLevel { ir: elem }),
        }
    }
}

/// The first fault of hoisting among the elements `elems` from position `k`
/// on.
pub open spec fn first_hoist_fault(irs: Seq<Ir>, elems: Seq<IrId>, k: int) -> Option<PrepareError>
    decreases elems.len() - k,
{
    if k < 0 || k >= elems.len() {
        None
    } else {
        match hoist_fault(irs, elems[k]) {
            Some(e) => Some(e),
            None => first_hoist_fault(irs, elems, k + 1),
        }
    }
}

/// The first fault of emission among the elements `elems` from position `k`
/// on.
pub open spec fn first_emit_fault(irs: Seq<Ir>, elems: Seq<IrId>, k: int) -> Option<PrepareError>
    decreases elems.len() - k,
{
    if k < 0 || k >= elems.len() {
        None
    } else {
        match emit_fault(irs, elems[k]) {
            Some(e) => Some(e),
            None => first_emit_fault(irs, elems, k + 1),
        }
    }
}

/// The fault that stops the preparer on `irs`, if there is one: the first
/// node is no block, or else the first fault of hoisting, or else the first
/// fault of emission.
pub open spec fn prepare_fault(irs: Seq<Ir>) -> Option<PrepareError> {
    if irs.len() == 0 || !(irs[0] is Block) {
        Some(PrepareError::RootNotBlock)
    } else {
        let elems = irs[0]->Block_0@;
        match first_hoist_fault(irs, elems, 0) {
            Some(e) => Some(e),
            None => first_emit_fault(irs, elems, 0),
        }
    }
}

/// The symbols that hoisting makes of the elements `elems`: one for each
/// function that is defined, in their order, with the name of the function
/// and no location yet.
pub open spec fn hoisted_symbols(irs: Seq<Ir>, elems: Seq<IrId>) -> Seq<Symbol>
    decreases elems.len(),
{
    if elems.len() == 0 {
        Seq::empty()
    } else {
        let before = hoisted_symbols(irs, elems.drop_last());
        match irs[elems.last().0 as int] {
            Ir::Deffun { iden, .. } => before.push(
                Symbol {
                    name: irs[iden.0 as int]->Iden_0,
                    typ: SymbolType::Universal,
                    loc: SymbolLocation::Undefined,
                },
            ),
            _ => before,
        }
    }
}

/// The tables after hoisting: the root scope is open and holds the hoisted
/// symbols.
pub open spec fn after_hoisting(irs: Seq<Ir>, elems: Seq<IrId>) -> Tables {
    let symbols = hoisted_symbols(irs, elems);
    Tables {
        code: seq![marker(BytecodeData::ScopeStart(ScopeId::at(0)))],
        functions: Seq::empty(),
        scopes: seq![
            ScopeView {
                id: ScopeId::at(0),
                parent: None,
                symbols: symbols_from(0, symbols.len()),
                exit_code: None,
            },
        ],
        symbols,
    }
}

/// The tables `t` after the element `ir` of the top block is emitted. A
/// function opens, with a scope of its own below the root scope, and closes
/// again; it is recorded with the places of its start and its end, and the
/// symbol that was hoisted for it learns the place of its start. A reserved
/// place and an error pass into the bytecode as they are.
pub open spec fn emit_one(t: Tables, ir: Ir) -> Tables {
    match ir {
        Ir::Deffun { .. } => {
            let f = t.functions.len() as int;
            let s = t.scopes.len() as int;
            let start = t.code.len() as int;
            Tables {
                code: t.code.push(marker(BytecodeData::FunStart(FunctionId::at(f)))).push(
                    marker(BytecodeData::ScopeStart(ScopeId::at(s))),
                ).push(marker(BytecodeData::ScopeEnd(ScopeId::at(s)))).push(
                    marker(BytecodeData::FunEnd(FunctionId::at(f))),
                ),
                functions: t.functions.push(
                    Function {
                        id: FunctionId::at(f),
                        top_scope: ScopeId::at(s),
                        start: BytecodeId::at(start),
                        end: BytecodeId::at(start + 3),
                    },
                ),
                scopes: t.scopes.push(
                    ScopeView {
                        id: ScopeId::at(s),
                        parent: Some(ScopeId::at(0)),
                        symbols: Seq::empty(),
                        exit_code: None,
                    },
                ),
                symbols: t.symbols.update(
                    f,
                    Symbol {
                        name: t.symbols[f].name,
                        typ: t.symbols[f].typ,
                        loc: SymbolLocation::Global(BytecodeId::at(start)),
                    },
                ),
            }
        },
        Ir::Reserved => Tables { code: t.code.push(marker(BytecodeData::Reserved)), ..t },
        Ir::Error(s) => Tables { code: t.code.push(marker(BytecodeData::Error(s))), ..t },
        _ => t,
    }
}

/// The tables after the first `k` of the elements `elems` are emitted.
pub open spec fn emitted(irs: Seq<Ir>, elems: Seq<IrId>, k: int) -> Tables
    decreases k,
{
    if k <= 0 {
        after_hoisting(irs, elems)
    } else {
        emit_one(emitted(irs, elems, k - 1), irs[elems[k - 1].0 as int])
    }
}

/// The position of the first of the elements `elems`, from position `k` on,
/// that has a fault of hoisting; the number of the elements where none has.
pub open spec fn hoist_stop(irs: Seq<Ir>, elems: Seq<IrId>, k: int) -> int
    decreases elems.len() - k,
{
    if k < 0 || k >= elems.len() {
        elems.len() as int
    } else if hoist_fault(irs, elems[k]) is Some {
        k
    } else {
        hoist_stop(irs, elems, k + 1)
    }
}

/// The position of the first of the elements `elems`, from position `k` on,
/// that has a fault of emission; the number of the elements where none has.
pub open spec fn emit_stop(irs: Seq<Ir>, elems: Seq<IrId>, k: int) -> int
    decreases elems.len() - k,
{
    if k < 0 || k >= elems.len() {
        elems.len() as int
    } else if emit_fault(irs, elems[k]) is Some {
        k
    } else {
        emit_stop(irs, elems, k + 1)
    }
}

/// The tables of the preparer on `irs` before the root scope is closed. The
/// preparer goes as far as the first fault and guesses nothing beyond it:
/// - where the first node is no block, the root scope is open and that is
///   all;
/// - where an element has a fault of hoisting, the root scope is open and
///   holds the symbols of the elements before that element, and nothing is
///   emitted;
/// - else all symbols are hoisted, and the elements before the first that has
///   a fault of emission are emitted, which are all where none has.
pub open spec fn opened(irs: Seq<Ir>) -> Tables {
    if irs.len() == 0 || !(irs[0] is Block) {
        after_hoisting(irs, Seq::empty())
    } else {
        let elems = irs[0]->Block_0@;
        let hoisted = hoist_stop(irs, elems, 0);
        if hoisted < elems.len() {
            after_hoisting(irs, elems.take(hoisted))
        } else {
            emitted(irs, elems, emit_stop(irs, elems, 0))
        }
    }
}

/// The tables that the preparer leaves for `irs`, with or without a fault:
/// what it made inside the root scope, and the root scope closed.
pub open spec fn prepared(irs: Seq<Ir>) -> Tables {
    let t = opened(irs);
    Tables { code: t.code.push(marker(BytecodeData::ScopeEnd(ScopeId::at(0)))), ..t }
}

/// The first symbol of `scope`, from position `k` of its list on, that has
/// the name `name`.
pub open spec fn find_in_scope(
    symbols: Seq<Symbol>,
    scope: ScopeView,
    name: Seq<char>,
    k: int,
) -> Option<SymbolId>
    decreases scope.symbols.len() - k,
{
    if k < 0 || k >= scope.symbols.len() {
        None
    } else if symbols[scope.symbols[k].0 as int].name@ == name {
        Some(scope.symbols[k])
    } else {
        find_in_scope(symbols, scope, name, k + 1)
    }
}

/// The symbol that the name `name` means in the scope `scope`: the first of
/// that name in the scope itself, or else what the name means in the parent
/// of the scope. `None` where no scope up to the root holds the name.
pub open spec fn lookup(
    scopes: Seq<ScopeView>,
    symbols: Seq<Symbol>,
    name: Seq<char>,
    scope: int,
) -> Option<SymbolId>
    decreases scope,
{
    if scope < 0 || scope >= scopes.len() {
        None
    } else {
        match find_in_scope(symbols, scopes[scope], name, 0) {
            Some(found) => Some(found),
            None => match scopes[scope].parent {
                Some(parent) => if parent.0 < scope {
                    lookup(scopes, symbols, name, parent.0 as int)
                } else {
                    None
                },
                None => None,
            },
        }
    }
}

/// A function that is defined among `elems` has its symbol among the
/// hoisted ones: before it, fewer symbols are hoisted than in all.
pub proof fn lemma_hoisted_before(irs: Seq<Ir>, elems: Seq<IrId>, k: int)
    requires
        0 <= k < elems.len(),
        irs[elems[k].0 as int] is Deffun,
    ensures
        hoisted_symbols(irs, elems.take(k)).len() < hoisted_symbols(irs, elems).len(),
    decreases elems.len(),
{
    let shorter = elems.drop_last();
    if k == elems.len() - 1 {
        assert(elems.take(k) =~= shorter);
    } else {
        assert(shorter.take(k) =~= elems.take(k));
        lemma_hoisted_before(irs, shorter, k);
    }
}

/// Hoisting one element more.
pub proof fn lemma_hoisted_step(irs: Seq<Ir>, elems: Seq<IrId>, k: int)
    requires
        0 <= k < elems.len(),
    ensures
        hoisted_symbols(irs, elems.take(k + 1)) == match irs[elems[k].0 as int] {
            Ir::Deffun { iden, .. } => hoisted_symbols(irs, elems.take(k)).push(
                Symbol {
                    name: irs[iden.0 as int]->Iden_0,
                    typ: SymbolType::Universal,
                    loc: SymbolLocation::Undefined,
                },
            ),
            _ => hoisted_symbols(irs, elems.take(k)),
        },
{
    assert(elems.take(k + 1).drop_last() =~= elems.take(k));
}

} // verus!
