//! The preparer: it walks the top block of the intermediate representation
//! twice. The first pass hoists: it makes a symbol for every function that is
//! defined, so that a function can be named before its definition. The second
//! pass emits the skeleton of the bytecode, with markers that open and close
//! every function and every scope.
pub mod model;
pub mod ready;
pub mod visibility;

use crate::frontend::ir_gen::ir::{irs_of, Ir, IrId, IrTag};
use crate::frontend::ir_gen::shape::ready;
use crate::middleend::bytecode::{
    balanced, function_starts_rise, lemma_open_markers_push, open_after, open_markers,
    scope_starts_rise, starts_once, Bytecode, BytecodeData, BytecodeId, BytecodeTag, FunctionId,
    FunctionTag, Marker, RelBytecodeId, ScopeId, ScopeTag,
};
use crate::middleend::prepare::model::{
    after_hoisting, emit_fault, emit_one, emit_stop, emitted, find_in_scope, first_emit_fault,
    first_hoist_fault, function_starts_known, functions_wf, hoist_stop, hoisted_symbols,
    lemma_hoisted_before, lemma_hoisted_step, lemma_scopes_of_push, lemma_scopes_of_update, lookup,
    marker, open_functions, open_scopes, opened, prepare_fault, prepared, scope_starts_known,
    scopes_of, scopes_wf, symbols_from, Tables,
};
use crate::middleend::prepare::ready::lemma_ready_has_no_fault;
use crate::util::indexed_vector::{IndexedVec, IndexedVecIndex};
use std::collections::VecDeque;
use vstd::prelude::*;

verus! {

#[derive(Debug, PartialEq, Eq)]
pub enum SymbolType {
    Universal,
}

/// Where a symbol is found in the bytecode.
#[derive(Debug, PartialEq, Eq)]
pub enum SymbolLocation {
    Global(BytecodeId),
    EndOfScope(RelBytecodeId),
    /// Not known yet: the symbol was hoisted and its construct is not
    /// emitted
    Undefined,
}

/// Names the arena of symbols.
#[derive(Debug, PartialEq, Eq)]
pub struct SymbolTag;

pub type SymbolId = IndexedVecIndex<SymbolTag>;

#[derive(Debug, PartialEq, Eq)]
pub struct Symbol {
    pub name: String,
    pub typ: SymbolType,
    pub loc: SymbolLocation,
}

impl Symbol {
    pub fn new(name: String, typ: SymbolType, location: SymbolLocation) -> (r: Symbol)
        ensures
            r == (Symbol { name, typ, loc: location }),
    {
        Symbol { name, typ, loc: location }
    }

    /// Gives the symbol its location, once it is known.
    pub fn fix_location(&mut self, location: SymbolLocation)
        ensures
            final(self).loc == location,
            final(self).name == old(self).name,
            final(self).typ == old(self).typ,
    {
        self.loc = location;
    }
}

#[derive(Debug, PartialEq, Eq)]
pub struct Scope {
    pub id: ScopeId,
    pub parent: Option<ScopeId>,
    pub symbols: Vec<SymbolId>,
    pub exit_code: Option<VecDeque<Bytecode>>,
}

/// What a [`Scope`] says, with its lists as sequences.
pub struct ScopeView {
    pub id: ScopeId,
    pub parent: Option<ScopeId>,
    pub symbols: Seq<SymbolId>,
    pub exit_code: Option<Seq<Bytecode>>,
}

impl View for Scope {
    type V = ScopeView;

    open spec fn view(&self) -> ScopeView {
        ScopeView {
            id: self.id,
            parent: self.parent,
            symbols: self.symbols@,
            exit_code: match self.exit_code {
                Some(code) => Some(code@),
                None => None,
            },
        }
    }
}

impl Scope {
    /// The scope `id` below `parent`, without symbols.
    pub fn new(id: ScopeId, parent: Option<ScopeId>) -> (r: Scope)
        ensures
            r@ == (ScopeView { id, parent, symbols: Seq::empty(), exit_code: None }),
    {
        Scope { id, parent, symbols: Vec::new(), exit_code: None }
    }

    /// Declares `sym` in the scope, behind the symbols it holds.
    pub fn add_symbol(&mut self, sym: SymbolId)
        ensures
            final(self)@ == (ScopeView { symbols: old(self)@.symbols.push(sym), ..old(self)@ }),
    {
        self.symbols.push(sym);
    }

    pub fn id(&self) -> (r: ScopeId)
        ensures
            r == self.id,
    {
        self.id
    }
}

#[derive(Debug, PartialEq, Eq)]
pub struct Function {
    pub id: FunctionId,
    pub top_scope: ScopeId,
    pub start: BytecodeId,
    pub end: BytecodeId,
}

impl Function {
    pub fn top_scope(&self) -> (r: ScopeId)
        ensures
            r == self.top_scope,
    {
        self.top_scope
    }
}

/// Why the preparer stopped: each of these shows a fault of an earlier
/// stage, not of the source.
#[derive(Copy, Clone, Debug, PartialEq, Eq)]
pub enum PrepareError {
    /// The first node is no block, or there is no node at all.
    RootNotBlock,
    /// The node `ir` may not stand at the top level.
    InvalidTopLevel { ir: IrId },
    /// The node `ir`, named as the name of a function, is no name.
    NameNotIden { ir: IrId },
    /// The node `ir`, named as the body of a function, is no block.
    BodyNotBlock { ir: IrId },
    /// There is no node `ir`.
    MissingNode { ir: IrId },
}

/// Stands for a function that was entered and has to be left. Whoever holds
/// the guard hands it back to the preparer, which then leaves the function,
/// unless `manual` took the duty over.
#[derive(Debug)]
pub struct FunCtxGuard {
    pub id: FunctionId,
    pub pop: bool,
}

impl FunCtxGuard {
    pub fn new(id: FunctionId) -> (r: FunCtxGuard)
        ensures
            r.id == id,
            r.pop,
    {
        FunCtxGuard { id, pop: true }
    }

    /// Takes over the duty of leaving the function: the guard is used up and
    /// the function stays entered.
    pub fn manual(self) -> (r: FunctionId)
        ensures
            r == self.id,
    {
        self.id
    }
}

/// Stands for a scope that was entered and has to be left. Whoever holds the
/// guard hands it back to the preparer, which then leaves the scope, unless
/// `manual` took the duty over.
#[derive(Debug)]
pub struct ScopeCtxGuard {
    pub id: ScopeId,
    pub pop: bool,
}

impl ScopeCtxGuard {
    pub fn new(id: ScopeId) -> (r: ScopeCtxGuard)
        ensures
            r.id == id,
            r.pop,
    {
        ScopeCtxGuard { id, pop: true }
    }

    /// Takes over the duty of leaving the scope: the guard is used up and the
    /// scope stays entered.
    pub fn manual(self) -> (r: ScopeId)
        ensures
            r == self.id,
    {
        self.id
    }
}

pub struct Prepare<'a> {
    pub functions: IndexedVec<FunctionTag, Function>,
    pub scopes: IndexedVec<ScopeTag, Scope>,
    pub code: IndexedVec<BytecodeTag, Bytecode>,
    pub symbols: IndexedVec<SymbolTag, Symbol>,
    pub irs: &'a IndexedVec<IrTag, Ir>,
    pub function_stack: Vec<FunctionId>,
    pub scope_stack: Vec<ScopeId>,
}

impl<'a> Prepare<'a> {
    /// The four tables as they are.
    pub open spec fn tables(&self) -> Tables {
        Tables {
            code: self.code@,
            functions: self.functions@,
            scopes: scopes_of(self.scopes@),
            symbols: self.symbols@,
        }
    }

    /// The scopes and functions that the bytecode leaves open, innermost
    /// last.
    pub open spec fn open(&self) -> Seq<Marker> {
        open_markers(self.code@)->0
    }

    /// Whether the scopes are in order: each carries its own handle and was
    /// made after its parent, the bytecode is nested so far and opens every
    /// scope once, and the stack of scopes holds the scopes that the bytecode
    /// leaves open.
    pub open spec fn scopes_in_order(&self) -> bool {
        &&& scopes_wf(scopes_of(self.scopes@), self.symbols@.len() as int)
        &&& open_markers(self.code@) is Some
        &&& self.scope_stack@ == open_scopes(self.open())
        &&& scope_starts_rise(self.code@)
        &&& scope_starts_known(self.code@, self.scopes@.len() as int)
        &&& forall|k: int|
            0 <= k < self.scope_stack@.len() ==> (#[trigger] self.scope_stack@[k]).0
                < self.scopes@.len()
    }

    /// Whether the functions are in order: each carries its own handle and
    /// has a scope, the bytecode opens every function once, and the stack of
    /// functions holds the functions that the bytecode leaves open.
    pub open spec fn functions_in_order(&self) -> bool {
        &&& functions_wf(self.functions@, self.scopes@.len() as int)
        &&& self.function_stack@ == open_functions(self.open())
        &&& function_starts_rise(self.code@)
        &&& function_starts_known(self.code@, self.functions@.len() as int)
        &&& forall|k: int|
            0 <= k < self.function_stack@.len() ==> (#[trigger] self.function_stack@[k]).0
                < self.functions@.len()
    }

    /// Whether the preparer is in order: the tables fit one another, the
    /// bytecode is nested so far and opens every scope and function once, and
    /// the two stacks hold what the bytecode leaves open.
    pub open spec fn wf(&self) -> bool {
        self.scopes_in_order() && self.functions_in_order()
    }

    /// A preparer for `irs`, with empty tables.
    pub fn new(irs: &'a IndexedVec<IrTag, Ir>) -> (r: Prepare<'a>)
        ensures
            r.wf(),
            r.irs == irs,
            r.code@.len() == 0,
            r.functions@.len() == 0,
            r.scopes@.len() == 0,
            r.symbols@.len() == 0,
            r.open().len() == 0,
    {
        Prepare {
            functions: IndexedVec::new(),
            scopes: IndexedVec::new(),
            code: IndexedVec::new(),
            symbols: IndexedVec::new(),
            irs,
            function_stack: Vec::new(),
            scope_stack: Vec::new(),
        }
    }

    /// Appends `bytecode` and returns its place.
    fn add(&mut self, bytecode: Bytecode) -> (id: BytecodeId)
        ensures
            final(self).code@ == old(self).code@.push(bytecode),
            final(self).functions == old(self).functions,
            final(self).scopes == old(self).scopes,
            final(self).symbols == old(self).symbols,
            final(self).irs == old(self).irs,
            final(self).function_stack == old(self).function_stack,
            final(self).scope_stack == old(self).scope_stack,
            id.0 == old(self).code@.len(),
            id == BytecodeId::at(old(self).code@.len() as int),
            open_markers(final(self).code@) == open_after(
                open_markers(old(self).code@),
                bytecode.tag,
            ),
    {
        proof {
            lemma_open_markers_push(self.code@, bytecode);
        }
        self.code.push(bytecode)
    }

    /// Appends `symbol` and returns its handle.
    fn new_symbol(&mut self, symbol: Symbol) -> (id: SymbolId)
        requires
            old(self).wf(),
        ensures
            final(self).wf(),
            final(self).symbols@ == old(self).symbols@.push(symbol),
            final(self).code == old(self).code,
            final(self).functions == old(self).functions,
            final(self).scopes == old(self).scopes,
            final(self).irs == old(self).irs,
            final(self).function_stack == old(self).function_stack,
            final(self).scope_stack == old(self).scope_stack,
            id.0 == old(self).symbols@.len(),
            id == SymbolId::at(old(self).symbols@.len() as int),
    {
        self.symbols.push(symbol)
    }

    /// Enters a new scope below the innermost open scope: its start is
    /// emitted and it becomes the innermost open scope.
    #[must_use]
    fn enter_scope(&mut self) -> (guard: ScopeCtxGuard)
        requires
            old(self).scopes_in_order(),
        ensures
            final(self).scopes_in_order(),
            old(self).functions_in_order() ==> final(self).functions_in_order(),
            final(self).function_stack == old(self).function_stack,
            final(self).scope_stack@ == old(self).scope_stack@.push(guard.id),
            final(self).irs == old(self).irs,
            final(self).functions == old(self).functions,
            final(self).symbols == old(self).symbols,
            guard.pop,
            guard.id.0 == old(self).scopes@.len(),
            guard.id == ScopeId::at(old(self).scopes@.len() as int),
            final(self).code@ == old(self).code@.push(marker(BytecodeData::ScopeStart(guard.id))),
            scopes_of(final(self).scopes@) == scopes_of(old(self).scopes@).push(
                ScopeView {
                    id: guard.id,
                    parent: if old(self).scope_stack@.len() == 0 {
                        None
                    } else {
                        Some(old(self).scope_stack@.last())
                    },
                    symbols: Seq::empty(),
                    exit_code: None,
                },
            ),
            final(self).open() == old(self).open().push(Marker::Scope(guard.id)),
    {
        let id: ScopeId = ScopeId::from(self.scopes.len());
        self.add(Bytecode::new(BytecodeData::ScopeStart(id)));
        let parent = if self.scope_stack.len() == 0 {
            None
        } else {
            Some(self.scope_stack[self.scope_stack.len() - 1])
        };
        let scope = Scope::new(id, parent);
        proof {
            lemma_scopes_of_push(self.scopes@, scope);
        }
        self.scopes.push(scope);
        self.scope_stack.push(id);
        proof {
            let open = old(self).open();
            assert(open.push(Marker::Scope(id)).drop_last() =~= open);
        }
        ScopeCtxGuard::new(id)
    }

    /// Leaves the innermost open scope, which nothing opened later may
    /// outlive: its end is emitted.
    fn exit_scope(&mut self) -> (id: ScopeId)
        requires
            old(self).scopes_in_order(),
            old(self).open().len() > 0,
            old(self).open().last() is Scope,
        ensures
            final(self).scopes_in_order(),
            old(self).functions_in_order() ==> final(self).functions_in_order(),
            final(self).function_stack == old(self).function_stack,
            final(self).irs == old(self).irs,
            final(self).functions == old(self).functions,
            final(self).symbols == old(self).symbols,
            final(self).scopes == old(self).scopes,
            Marker::Scope(id) == old(self).open().last(),
            final(self).code@ == old(self).code@.push(marker(BytecodeData::ScopeEnd(id))),
            final(self).open() == old(self).open().drop_last(),
    {
        let id = self.scope_stack.pop().unwrap();
        self.add(Bytecode::new(BytecodeData::ScopeEnd(id)));
        proof {
            let open = old(self).open();
            assert(open_scopes(open).drop_last() =~= open_scopes(open.drop_last()));
            assert(self.scope_stack@ =~= open_scopes(open).drop_last());
        }
        id
    }

    /// Takes back the guard of a scope and leaves the scope, which must be
    /// the innermost of what is open.
    fn release_scope(&mut self, guard: ScopeCtxGuard)
        requires
            old(self).wf(),
            guard.pop ==> old(self).open().len() > 0 && old(self).open().last()
                == Marker::Scope(guard.id),
        ensures
            final(self).wf(),
            final(self).irs == old(self).irs,
            final(self).functions == old(self).functions,
            final(self).symbols == old(self).symbols,
            final(self).scopes == old(self).scopes,
            guard.pop ==> final(self).code@ == old(self).code@.push(
                marker(BytecodeData::ScopeEnd(guard.id)),
            ) && final(self).open() == old(self).open().drop_last(),
            !guard.pop ==> final(self).code == old(self).code,
    {
        if guard.pop {
            self.exit_scope();
        }
    }

    /// The innermost open scope.
    fn top_scope(&mut self) -> (r: &mut Scope)
        requires
            old(self).wf(),
            old(self).scope_stack@.len() > 0,
        ensures
            *r == old(self).scopes@[old(self).scope_stack@.last().0 as int],
            final(self).irs == old(self).irs,
            final(self).functions == old(self).functions,
            final(self).symbols == old(self).symbols,
            final(self).code == old(self).code,
            final(self).function_stack == old(self).function_stack,
            final(self).scope_stack == old(self).scope_stack,
            final(self).scopes@ == old(self).scopes@.update(
                old(self).scope_stack@.last().0 as int,
                *final(r),
            ),
    {
        let id = self.scope_stack[self.scope_stack.len() - 1];
        self.scopes.get_mut(id)
    }

    /// Enters a new function: its start is emitted, a scope of its own is
    /// entered, and it is recorded with the place of its start.
    #[must_use]
    fn enter_function(&mut self) -> (guard: FunCtxGuard)
        requires
            old(self).wf(),
        ensures
            final(self).wf(),
            final(self).irs == old(self).irs,
            final(self).symbols == old(self).symbols,
            guard.pop,
            guard.id.0 == old(self).functions@.len(),
            guard.id == FunctionId::at(old(self).functions@.len() as int),
            final(self).code@ == old(self).code@.push(
                marker(BytecodeData::FunStart(guard.id)),
            ).push(
                marker(BytecodeData::ScopeStart(ScopeId::at(old(self).scopes@.len() as int))),
            ),
            final(self).functions@ == old(self).functions@.push(
                Function {
                    id: guard.id,
                    top_scope: ScopeId::at(old(self).scopes@.len() as int),
                    start: BytecodeId::at(old(self).code@.len() as int),
                    end: BytecodeId::at(0),
                },
            ),
            scopes_of(final(self).scopes@) == scopes_of(old(self).scopes@).push(
                ScopeView {
                    id: ScopeId::at(old(self).scopes@.len() as int),
                    parent: if old(self).scope_stack@.len() == 0 {
                        None
                    } else {
                        Some(old(self).scope_stack@.last())
                    },
                    symbols: Seq::empty(),
                    exit_code: None,
                },
            ),
            final(self).open() == old(self).open().push(Marker::Fun(guard.id)).push(
                Marker::Scope(ScopeId::at(old(self).scopes@.len() as int)),
            ),
    {
        let id: FunctionId = FunctionId::from(self.functions.len());
        let start_code = self.add(Bytecode::new(BytecodeData::FunStart(id)));
        proof {
            let open = old(self).open();
            assert(open.push(Marker::Fun(id)).drop_last() =~= open);
        }
        let scope_id = self.enter_scope().manual();
        self.functions.push(
            Function { id, top_scope: scope_id, start: start_code, end: BytecodeId::from(0usize) },
        );
        self.function_stack.push(id);
        proof {
            let open = old(self).open();
            let entered = open.push(Marker::Fun(id));
            assert(entered.push(Marker::Scope(scope_id)).drop_last() =~= entered);
            assert(entered.drop_last() =~= open);
        }
        FunCtxGuard::new(id)
    }

    /// Leaves the innermost open function, whose scope must be the innermost
    /// of what is open: the end of the scope and the end of the function are
    /// emitted, and the place of the end is recorded.
    fn exit_function(&mut self) -> (id: FunctionId)
        requires
            old(self).wf(),
            old(self).open().len() >= 2,
            old(self).open().last() is Scope,
            old(self).open().drop_last().last() is Fun,
        ensures
            final(self).wf(),
            final(self).irs == old(self).irs,
            final(self).symbols == old(self).symbols,
            final(self).scopes == old(self).scopes,
            Marker::Fun(id) == old(self).open().drop_last().last(),
            final(self).code@ == old(self).code@.push(
                marker(BytecodeData::ScopeEnd(old(self).open().last()->Scope_0)),
            ).push(marker(BytecodeData::FunEnd(id))),
            final(self).functions@ == old(self).functions@.update(
                id.0 as int,
                Function {
                    end: BytecodeId::at(old(self).code@.len() as int + 1),
                    ..old(self).functions@[id.0 as int]
                },
            ),
            final(self).open() == old(self).open().drop_last().drop_last(),
    {
        proof {
            let open = old(self).open();
            assert(open_functions(open) == open_functions(open.drop_last()));
            assert(open_functions(open.drop_last()).drop_last() =~= open_functions(
                open.drop_last().drop_last(),
            ));
        }
        let id = self.function_stack.pop().unwrap();
        self.exit_scope();
        let end_code = self.add(Bytecode::new(BytecodeData::FunEnd(id)));
        let start = self.functions.get(id).start;
        let top_scope = self.functions.get(id).top_scope;
        self.functions.set(id, Function { id, top_scope, start, end: end_code });
        proof {
            let open = old(self).open();
            assert(self.function_stack@ =~= open_functions(open.drop_last()).drop_last());
            assert(open_scopes(open.drop_last()) == open_scopes(open.drop_last().drop_last()));
        }
        id
    }

    /// Takes back the guard of a function and leaves the function, whose
    /// scope must be the innermost of what is open.
    fn release_function(&mut self, guard: FunCtxGuard)
        requires
            old(self).wf(),
            guard.pop ==> old(self).open().len() >= 2 && old(self).open().last() is Scope,
            guard.pop ==> old(self).open().drop_last().last() == Marker::Fun(guard.id),
        ensures
            final(self).wf(),
            final(self).irs == old(self).irs,
            final(self).symbols == old(self).symbols,
            final(self).scopes == old(self).scopes,
            guard.pop ==> final(self).code@ == old(self).code@.push(
                marker(BytecodeData::ScopeEnd(old(self).open().last()->Scope_0)),
            ).push(marker(BytecodeData::FunEnd(guard.id))),
            guard.pop ==> final(self).functions@ == old(self).functions@.update(
                guard.id.0 as int,
                Function {
                    end: BytecodeId::at(old(self).code@.len() as int + 1),
                    ..old(self).functions@[guard.id.0 as int]
                },
            ),
            guard.pop ==> final(self).open() == old(self).open().drop_last().drop_last(),
            !guard.pop ==> final(self).code == old(self).code,
            !guard.pop ==> final(self).functions == old(self).functions,
    {
        if guard.pop {
            self.exit_function();
        }
    }

    /// The name that the node `ir` holds.
    fn str_from_iden(&self, ir: IrId) -> (r: Result<String, PrepareError>)
        ensures
            ir.0 >= self.irs@.len() ==> r == Err::<String, PrepareError>(
                PrepareError::MissingNode { ir },
            ),
            ir.0 < self.irs@.len() && !(self.irs@[ir.0 as int] is Iden) ==> r == Err::<
                String,
                PrepareError,
            >(PrepareError::NameNotIden { ir }),
            ir.0 < self.irs@.len() && self.irs@[ir.0 as int] is Iden ==> r == Ok::<
                String,
                PrepareError,
            >(self.irs@[ir.0 as int]->Iden_0),
    {
        if !self.irs.valid_index(ir) {
            return Err(PrepareError::MissingNode { ir });
        }
        match self.irs.get(ir) {
            Ir::Iden(s) => Ok(s.clone()),
            _ => Err(PrepareError::NameNotIden { ir }),
        }
    }

    /// Goes through the statements of the block `block_ir`. Nothing is
    /// emitted for them yet; the node must be a block.
    fn stmts(&self, block_ir: IrId) -> (r: Result<(), PrepareError>)
        ensures
            block_ir.0 >= self.irs@.len() ==> r == Err::<(), PrepareError>(
                PrepareError::MissingNode { ir: block_ir },
            ),
            block_ir.0 < self.irs@.len() && !(self.irs@[block_ir.0 as int] is Block) ==> r == Err::<
                (),
                PrepareError,
            >(PrepareError::BodyNotBlock { ir: block_ir }),
            block_ir.0 < self.irs@.len() && self.irs@[block_ir.0 as int] is Block ==> r == Ok::<
                (),
                PrepareError,
            >(()),
    {
        if !self.irs.valid_index(block_ir) {
            return Err(PrepareError::MissingNode { ir: block_ir });
        }
        match self.irs.get(block_ir) {
            Ir::Block(_) => Ok(()),
            _ => Err(PrepareError::BodyNotBlock { ir: block_ir }),
        }
    }

    /// Emits the function that the node `ir` defines, inside the root scope:
    /// its body is gone through, the function is entered, the symbol that was
    /// hoisted for it learns the place of its start, and the function is left.
    /// The body is gone through first, for which nothing is emitted yet, so
    /// that a fault in it leaves the tables as they were.
    fn deffun(&mut self, ir: IrId) -> (r: Result<(), PrepareError>)
        requires
            old(self).wf(),
            ir.0 < old(self).irs@.len(),
            old(self).irs@[ir.0 as int] is Deffun,
            old(self).open() == seq![Marker::Scope(ScopeId::at(0))],
            old(self).functions@.len() < old(self).symbols@.len(),
        ensures
            final(self).wf(),
            final(self).irs == old(self).irs,
            final(self).open() == old(self).open(),
            r == match emit_fault(old(self).irs@, ir) {
                Some(e) => Err::<(), PrepareError>(e),
                None => Ok(()),
            },
            r is Ok ==> final(self).tables().same_as(
                emit_one(old(self).tables(), old(self).irs@[ir.0 as int]),
            ),
            r is Ok ==> final(self).functions@.len() == old(self).functions@.len() + 1,
            r is Err ==> *final(self) == *old(self),
            final(self).symbols@.len() == old(self).symbols@.len(),
    {
        let irs: &'a IndexedVec<IrTag, Ir> = self.irs;
        let body = match irs.get(ir) {
            Ir::Deffun { iden: _, params: _, returns: _, body } => *body,
            _ => IrId::unresolved(),
        };
        proof {
            assert(old(self).scope_stack@ =~= seq![ScopeId::at(0)]) by {
                reveal_with_fuel(open_scopes, 2);
                let open = old(self).open();
                assert(open.drop_last() =~= Seq::<Marker>::empty());
            }
        }
        match self.stmts(body) {
            Ok(_) => {},
            Err(e) => {
                return Err(e);
            },
        }
        let funguard = self.enter_function();
        let start = self.functions.get(funguard.id).start;
        let symbol = self.symbols.get_mut(SymbolId::from(funguard.id.0));
        symbol.fix_location(SymbolLocation::Global(start));
        proof {
            let open = old(self).open();
            let f = Marker::Fun(funguard.id);
            let s = Marker::Scope(ScopeId::at(old(self).scopes@.len() as int));
            assert(open.push(f).push(s).drop_last() =~= open.push(f));
            assert(open.push(f).drop_last() =~= open);
        }
        self.release_function(funguard);
        Ok(())
    }

    /// Prepares the top block, inside the root scope, which is open and
    /// empty: first every function that the block defines gets its symbol,
    /// then the elements of the block are emitted in their order. The first
    /// fault stops the work, and nothing is made beyond it.
    fn top_block(&mut self) -> (r: Result<(), PrepareError>)
        requires
            old(self).wf(),
            old(self).open() == seq![Marker::Scope(ScopeId::at(0))],
            old(self).code@ == seq![marker(BytecodeData::ScopeStart(ScopeId::at(0)))],
            old(self).functions@.len() == 0,
            old(self).symbols@.len() == 0,
            scopes_of(old(self).scopes@) == seq![
                ScopeView {
                    id: ScopeId::at(0),
                    parent: None,
                    symbols: Seq::empty(),
                    exit_code: None,
                },
            ],
        ensures
            final(self).wf(),
            final(self).irs == old(self).irs,
            final(self).open() == old(self).open(),
            r == match prepare_fault(old(self).irs@) {
                Some(e) => Err::<(), PrepareError>(e),
                None => Ok(()),
            },
            final(self).tables().same_as(opened(old(self).irs@)),
    {
        let irs: &'a IndexedVec<IrTag, Ir> = self.irs;
        let elems: &Vec<IrId> = match irs.first() {
            Some(Ir::Block(elems)) => elems,
            _ => {
                proof {
                    let none = Seq::<IrId>::empty();
                    assert(hoisted_symbols(irs@, none) =~= Seq::<Symbol>::empty());
                    assert(symbols_from(0, 0) =~= Seq::<SymbolId>::empty());
                    assert(self.tables().same_as(after_hoisting(irs@, none)));
                }
                return Err(PrepareError::RootNotBlock);
            },
        };
        proof {
            assert(self.scope_stack@ =~= seq![ScopeId::at(0)]) by {
                reveal_with_fuel(open_scopes, 2);
                assert(self.open().drop_last() =~= Seq::<Marker>::empty());
            }
            assert(elems@.take(0) =~= Seq::<IrId>::empty());
            assert(symbols_from(0, 0) =~= Seq::<SymbolId>::empty());
        }
        // First pass to put things in their place
        let mut k: usize = 0;
        while k < elems.len()
            invariant
                self.wf(),
                irs == old(self).irs,
                self.irs == old(self).irs,
                elems@ == irs@[0]->Block_0@,
                irs@.len() > 0,
                irs@[0] is Block,
                k <= elems@.len(),
                self.code == old(self).code,
                self.functions == old(self).functions,
                self.scope_stack@ == seq![ScopeId::at(0)],
                self.open() == old(self).open(),
                self.symbols@ == hoisted_symbols(irs@, elems@.take(k as int)),
                scopes_of(self.scopes@) =~= seq![
                    ScopeView {
                        id: ScopeId::at(0),
                        parent: None,
                        symbols: symbols_from(0, self.symbols@.len()),
                        exit_code: None,
                    },
                ],
                first_hoist_fault(irs@, elems@, k as int) == first_hoist_fault(irs@, elems@, 0),
                hoist_stop(irs@, elems@, k as int) == hoist_stop(irs@, elems@, 0),
                old(self).code@ == seq![marker(BytecodeData::ScopeStart(ScopeId::at(0)))],
                old(self).functions@.len() == 0,
            decreases elems@.len() - k,
        {
            let irid = elems[k];
            proof {
                lemma_hoisted_step(irs@, elems@, k as int);
            }
            if !irs.valid_index(irid) {
                return Err(PrepareError::MissingNode { ir: irid });
            }
            match irs.get(irid) {
                Ir::Deffun { iden, params: _, returns: _, body: _ } => {
                    let s = match self.str_from_iden(*iden) {
                        Ok(s) => s,
                        Err(e) => {
                            return Err(e);
                        },
                    };
                    let ghost before = self.symbols@.len();
                    let sym = self.new_symbol(
                        Symbol::new(s, SymbolType::Universal, SymbolLocation::Undefined),
                    );
                    let ghost scopes = self.scopes@;
                    let top = self.top_scope();
                    top.add_symbol(sym);
                    proof {
                        lemma_scopes_of_update(scopes, 0, self.scopes@[0]);
                        assert(self.scopes@ =~= scopes.update(0, self.scopes@[0]));
                        assert(symbols_from(0, before).push(sym) =~= symbols_from(
                            0,
                            (before + 1) as nat,
                        ));
                        assert(scopes_of(scopes)[0] == scopes[0]@);
                    }
                },
                _ => (),
            }
            k += 1;
        }
        proof {
            assert(elems@.take(k as int) =~= elems@);
        }
        // Second pass to actually do stuff
        let mut k: usize = 0;
        while k < elems.len()
            invariant
                self.wf(),
                irs == old(self).irs,
                self.irs == old(self).irs,
                elems@ == irs@[0]->Block_0@,
                irs@.len() > 0,
                irs@[0] is Block,
                k <= elems@.len(),
                self.open() == old(self).open(),
                old(self).open() == seq![Marker::Scope(ScopeId::at(0))],
                first_hoist_fault(irs@, elems@, 0) is None,
                hoist_stop(irs@, elems@, 0) == elems@.len(),
                first_emit_fault(irs@, elems@, k as int) == first_emit_fault(irs@, elems@, 0),
                emit_stop(irs@, elems@, k as int) == emit_stop(irs@, elems@, 0),
                self.tables().same_as(emitted(irs@, elems@, k as int)),
                self.functions@.len() == hoisted_symbols(irs@, elems@.take(k as int)).len(),
                self.symbols@.len() == hoisted_symbols(irs@, elems@).len(),
            decreases elems@.len() - k,
        {
            let irid = elems[k];
            proof {
                lemma_hoisted_step(irs@, elems@, k as int);
            }
            if !irs.valid_index(irid) {
                return Err(PrepareError::MissingNode { ir: irid });
            }
            match irs.get(irid) {
                Ir::Deffun { .. } => {
                    proof {
                        lemma_hoisted_before(irs@, elems@, k as int);
                    }
                    match self.deffun(irid) {
                        Ok(_) => {},
                        Err(e) => {
                            return Err(e);
                        },
                    }
                },
                Ir::Reserved => {
                    self.add(Bytecode::new(BytecodeData::Reserved));
                },
                Ir::Error(s) => {
                    self.add(Bytecode::new(BytecodeData::Error(s.clone())));
                },
                _ => {
                    return Err(PrepareError::InvalidTopLevel { ir: irid });
                },
            }
            k += 1;
        }
        Ok(())
    }

    /// Prepares the intermediate representation with empty tables: the root
    /// scope is entered, the top block is prepared in it, and the root scope
    /// is left, whether the block was in order or not. A fault stops the work
    /// where it is found: the tables hold what was made before it, and
    /// nothing is guessed beyond it. The bytecode is nested
    /// and closed in the end, and opens every scope and function once. On an
    /// arena that is ready for the preparer, as the generator makes it of
    /// every tree of the parser, the preparer does not stop.
    pub fn prepare(&mut self) -> (r: Result<(), PrepareError>)
        requires
            old(self).wf(),
            old(self).code@.len() == 0,
            old(self).functions@.len() == 0,
            old(self).scopes@.len() == 0,
            old(self).symbols@.len() == 0,
        ensures
            final(self).wf(),
            final(self).irs == old(self).irs,
            balanced(final(self).code@),
            starts_once(final(self).code@),
            r == match prepare_fault(old(self).irs@) {
                Some(e) => Err::<(), PrepareError>(e),
                None => Ok(()),
            },
            final(self).tables().same_as(prepared(old(self).irs@)),
            ready(irs_of(old(self).irs@)) ==> r == Ok::<(), PrepareError>(()),
    {
        proof {
            if ready(irs_of(self.irs@)) {
                lemma_ready_has_no_fault(self.irs@);
            }
            assert(old(self).open() =~= Seq::<Marker>::empty());
            assert(old(self).scope_stack@ =~= Seq::<ScopeId>::empty());
        }
        let top = self.enter_scope();
        proof {
            assert(self.code@ =~= seq![marker(BytecodeData::ScopeStart(ScopeId::at(0)))]);
            assert(self.open() =~= seq![Marker::Scope(ScopeId::at(0))]);
            assert(scopes_of(self.scopes@) =~= seq![
                ScopeView {
                    id: ScopeId::at(0),
                    parent: None,
                    symbols: Seq::empty(),
                    exit_code: None,
                },
            ]);
        }
        let r = self.top_block();
        self.release_scope(top);
        proof {
            assert(self.open() =~= Seq::<Marker>::empty());
        }
        r
    }

    /// The first symbol of the name `name` that the scope `scope` itself
    /// holds.
    pub fn find_symbol_in_scope(&self, name: &str, scope: ScopeId) -> (r: Option<SymbolId>)
        requires
            scope.0 < self.scopes@.len(),
            forall|k: int|
                0 <= k < self.scopes@[scope.0 as int]@.symbols.len() ==> (
                #[trigger] self.scopes@[scope.0 as int]@.symbols[k]).0 < self.symbols@.len(),
        ensures
            r == find_in_scope(self.symbols@, self.scopes@[scope.0 as int]@, name@, 0),
    {
        let wanted = name.to_owned();
        let this = self.scopes.get(scope);
        let ghost view = this@;
        let mut k: usize = 0;
        while k < this.symbols.len()
            invariant
                k <= this.symbols@.len(),
                wanted@ == name@,
                view == this@,
                view == self.scopes@[scope.0 as int]@,
                forall|i: int|
                    0 <= i < view.symbols.len() ==> (#[trigger] view.symbols[i]).0
                        < self.symbols@.len(),
                find_in_scope(self.symbols@, view, name@, k as int) == find_in_scope(
                    self.symbols@,
                    view,
                    name@,
                    0,
                ),
            decreases this.symbols@.len() - k,
        {
            let sym_id = this.symbols[k];
            let sym = self.symbols.get(sym_id);
            if sym.name == wanted {
                return Some(sym_id);
            }
            k += 1;
        }
        None
    }

    /// What the name `name` means in the innermost open scope.
    pub fn find_symbol_full(&self, name: &str) -> (r: Option<SymbolId>)
        requires
            scopes_wf(scopes_of(self.scopes@), self.symbols@.len() as int),
            self.scope_stack@.len() > 0,
            self.scope_stack@.last().0 < self.scopes@.len(),
        ensures
            r == lookup(
                scopes_of(self.scopes@),
                self.symbols@,
                name@,
                self.scope_stack@.last().0 as int,
            ),
    {
        let scope = self.scope_stack[self.scope_stack.len() - 1];
        self.find_symbol_full_helper(name, scope)
    }

    /// What the name `name` means in the scope `scope`: the first symbol of
    /// that name in the scope itself, or else what the name means in the
    /// parent of the scope.
    pub fn find_symbol_full_helper(&self, name: &str, scope: ScopeId) -> (r: Option<SymbolId>)
        requires
            scopes_wf(scopes_of(self.scopes@), self.symbols@.len() as int),
            scope.0 < self.scopes@.len(),
        ensures
            r == lookup(scopes_of(self.scopes@), self.symbols@, name@, scope.0 as int),
        decreases scope.0,
    {
        assert(scopes_of(self.scopes@)[scope.0 as int] == self.scopes@[scope.0 as int]@);
        let sym = self.find_symbol_in_scope(name, scope);
        if sym.is_some() {
            return sym;
        }
        match self.scopes.get(scope).parent {
            Some(parent) => self.find_symbol_full_helper(name, parent),
            None => None,
        }
    }

    /// The tables of functions, scopes, bytecode and symbols.
    pub fn get_results(self) -> (r: (
        IndexedVec<FunctionTag, Function>,
        IndexedVec<ScopeTag, Scope>,
        IndexedVec<BytecodeTag, Bytecode>,
        IndexedVec<SymbolTag, Symbol>,
    ))
        ensures
            r.0 == self.functions,
            r.1 == self.scopes,
            r.2 == self.code,
            r.3 == self.symbols,
    {
        (self.functions, self.scopes, self.code, self.symbols)
    }
}

} // verus!
