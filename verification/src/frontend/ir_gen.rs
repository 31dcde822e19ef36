//! The generator of the intermediate representation: it walks the syntax tree
//! from the program down and lowers each node. A node that has no lowering
//! becomes an error node and is reported; the walk goes on with its siblings.
pub mod ir;
pub mod lowering;
pub mod shape;
pub mod text;

use crate::frontend::ir_gen::ir::{
    ir_well_formed, irs_of, lemma_irs_of_push, lemma_irs_of_update, Ir, IrId, IrNode, IrTag, Type,
};
use crate::frontend::ir_gen::lowering::{
    error_nodes, lemma_and_lowered_keeps_order, lemma_and_lowered_marks, lemma_and_node_keeps_order,
    lemma_and_node_marks, lemma_error_nodes_add, lemma_error_nodes_push, lemma_failure_marks,
    lemma_in_order_grows, lemma_returns_marks, lemma_rooted_lowers_to_block, lw_block, lw_child,
    lw_convert, lw_failure, lw_function_definition, lw_items, lw_name, lw_number, lw_returns,
    Lowered, LoweredItems,
};
use crate::frontend::ir_gen::shape::{lemma_lowered_tree_is_ready, ready};
use crate::frontend::ir_gen::text::{parse_literal, string_of};
use crate::frontend::module::span::Span;
use crate::frontend::parser::ast::{
    nodes_of, rooted, well_formed, Ast, AstId, AstKind, AstTag, AstType,
};
use crate::frontend::parser::shape::nodes_shaped;
use crate::util::indexed_vector::IndexedVec;
use vstd::prelude::*;
pub use crate::frontend::ir_gen::lowering::{IrGeneratorError, LoweringError};

verus! {

pub struct IrGenerator<'a> {
    pub asts: &'a IndexedVec<AstTag, Ast>,
    pub source: &'a [u8],
    pub ir: IndexedVec<IrTag, Ir>,
    pub errors: Vec<IrGeneratorError>,
}

impl<'a> IrGenerator<'a> {
    /// Whether `self` lowers the same tree as `old`.
    pub open spec fn same_input(&self, old: &Self) -> bool {
        &&& self.asts == old.asts
        &&& self.source == old.source
    }

    /// Whether `self` is what the lowering `l` makes of `old`, with `r` as the
    /// handle that stands for what was lowered.
    pub open spec fn lowers(&self, old: &Self, l: Lowered, r: IrId) -> bool {
        &&& self.same_input(old)
        &&& irs_of(self.ir@) =~= irs_of(old.ir@) + l.nodes
        &&& self.ir@.len() == old.ir@.len() + l.nodes.len()
        &&& self.errors@ =~= old.errors@ + l.errors
        &&& r == l.result
        &&& l.keeps_order(old.ir@.len() as int)
        &&& l.marks_errors()
    }

    /// A generator for the tree `asts`, whose spans lie in `source`.
    pub fn new(asts: &'a IndexedVec<AstTag, Ast>, source: &'a [u8]) -> (r: IrGenerator<'a>)
        ensures
            r.asts == asts,
            r.source == source,
            r.ir@.len() == 0,
            r.errors@.len() == 0,
    {
        IrGenerator { asts, source, ir: IndexedVec::new(), errors: Vec::new() }
    }

    /// The arena and the errors of the generator.
    pub fn get_results(self) -> (r: (IndexedVec<IrTag, Ir>, Vec<IrGeneratorError>))
        ensures
            r.0 == self.ir,
            r.1 == self.errors,
    {
        (self.ir, self.errors)
    }

    /// The type of the syntax node behind `ast`.
    fn ast(&self, ast: AstId) -> (r: &'a AstType)
        requires
            ast.0 < self.asts@.len(),
        ensures
            *r == self.asts@[ast.0 as int].atype,
    {
        let asts: &'a IndexedVec<AstTag, Ast> = self.asts;
        &asts.get(ast).atype
    }

    /// The span of the syntax node behind `ast`.
    fn span(&self, ast: AstId) -> (r: Span)
        requires
            ast.0 < self.asts@.len(),
        ensures
            r == self.asts@[ast.0 as int].span,
    {
        self.asts.get(ast).span
    }

    /// Appends `ir` and returns its handle.
    fn push(&mut self, ir: Ir) -> (id: IrId)
        ensures
            final(self).same_input(old(self)),
            final(self).errors == old(self).errors,
            final(self).ir@ == old(self).ir@.push(ir),
            irs_of(final(self).ir@) == irs_of(old(self).ir@).push(ir@),
            id == IrId::at(old(self).ir@.len() as int),
            id.0 == old(self).ir@.len(),
    {
        proof {
            lemma_irs_of_push(self.ir@, ir);
        }
        self.ir.push(ir)
    }

    /// Appends a reserved place and returns its handle.
    fn reserve(&mut self) -> (id: IrId)
        ensures
            final(self).same_input(old(self)),
            final(self).errors == old(self).errors,
            final(self).ir@ == old(self).ir@.push(Ir::Reserved),
            irs_of(final(self).ir@) == irs_of(old(self).ir@).push(IrNode::Reserved),
            id == IrId::at(old(self).ir@.len() as int),
            id.0 == old(self).ir@.len(),
    {
        self.push(Ir::Reserved)
    }

    /// Reports `error` at the syntax node `ast` with span `span`, and appends
    /// an error node in place of what had no lowering.
    fn error(&mut self, error: LoweringError, ast: AstId, span: Span) -> (r: IrId)
        ensures
            final(self).lowers(
                old(self),
                lw_failure(old(self).ir@.len() as int, error, ast, span),
                r,
            ),
    {
        proof {
            lemma_failure_marks(self.ir@.len() as int, error, ast, span);
        }
        self.errors.push(IrGeneratorError { error, ast, span });
        self.push(Ir::Error(error.message().to_owned()))
    }

    /// Appends a block without children.
    fn empty_block(&mut self) -> (r: IrId)
        ensures
            final(self).lowers(
                old(self),
                Lowered::empty().and_node(old(self).ir@.len() as int, IrNode::Block(Seq::empty())),
                r,
            ),
    {
        proof {
            lemma_and_node_marks(
                Lowered::empty(),
                self.ir@.len() as int,
                IrNode::Block(Seq::empty()),
            );
        }
        self.push(Ir::Block(Vec::new()))
    }

    /// Appends the place of what a function returns: for now the type of a
    /// 64-bit unsigned integer.
    fn return_slot(&mut self) -> (r: IrId)
        ensures
            final(self).lowers(old(self), lw_returns(old(self).ir@.len() as int), r),
    {
        proof {
            lemma_returns_marks(self.ir@.len() as int);
            assert(IrNode::Type(Type::U64).operands() =~= Seq::<IrId>::empty());
        }
        self.push(Ir::Type(Type::U64))
    }

    /// Lowers the name at the node `ast_id`.
    fn name(&mut self, ast_id: AstId, is_symbol: bool) -> (r: IrId)
        requires
            ast_id.0 < old(self).asts@.len(),
        ensures
            final(self).lowers(
                old(self),
                lw_name(
                    nodes_of(old(self).asts@),
                    old(self).source@,
                    ast_id.0 as int,
                    old(self).ir@.len() as int,
                    is_symbol,
                ),
                r,
            ),
    {
        let span = self.span(ast_id);
        let n = self.source.len();
        if span.start <= n && span.len <= n - span.start {
            let name = string_of(span.slice(self.source));
            proof {
                let base = self.ir@.len() as int;
                lemma_and_node_marks(Lowered::empty(), base, IrNode::Symbol(name@));
                lemma_and_node_marks(Lowered::empty(), base, IrNode::Iden(name@));
            }
            if is_symbol {
                self.push(Ir::Symbol(name))
            } else {
                self.push(Ir::Iden(name))
            }
        } else {
            self.error(LoweringError::MalformedAst, ast_id, span)
        }
    }

    /// Lowers the number at the node `ast_id`.
    fn number_literal(&mut self, ast_id: AstId) -> (r: IrId)
        requires
            ast_id.0 < old(self).asts@.len(),
        ensures
            final(self).lowers(
                old(self),
                lw_number(
                    nodes_of(old(self).asts@),
                    old(self).source@,
                    ast_id.0 as int,
                    old(self).ir@.len() as int,
                ),
                r,
            ),
    {
        let span = self.span(ast_id);
        let n = self.source.len();
        if !(span.start <= n && span.len <= n - span.start) {
            return self.error(LoweringError::MalformedAst, ast_id, span);
        }
        let n = match parse_literal(span.slice(self.source)) {
            Some(n) => n,
            None => {
                return self.error(LoweringError::InvalidNumber, ast_id, span);
            },
        };
        proof {
            let base = self.ir@.len() as int;
            let typed = Lowered::empty().and_node(base, IrNode::Type(Type::U64));
            let valued = typed.and_node(base, IrNode::Number(n));
            lemma_and_node_marks(Lowered::empty(), base, IrNode::Type(Type::U64));
            lemma_and_node_marks(typed, base, IrNode::Number(n));
            lemma_and_node_marks(
                valued,
                base,
                IrNode::Value { value: IrId::at(base + 1), typ: IrId::at(base) },
            );
        }
        let typ = self.push(Ir::Type(Type::U64));
        let number = self.push(Ir::Number(n));
        self.push(Ir::Value { value: number, typ })
    }

    /// Lowers the node `ast_id`.
    fn convert(&mut self, ast_id: AstId) -> (r: IrId)
        requires
            ast_id.0 < old(self).asts@.len(),
        ensures
            final(self).lowers(
                old(self),
                lw_convert(
                    nodes_of(old(self).asts@),
                    old(self).source@,
                    ast_id.0 as int,
                    old(self).ir@.len() as int,
                ),
                r,
            ),
        decreases ast_id.0, 3nat,
    {
        let ast = self.ast(ast_id);
        match ast {
            AstType::Program(block) => self.child(ast_id, *block),
            AstType::ErrorAst => {
                let span = self.span(ast_id);
                self.error(LoweringError::ErrorAst, ast_id, span)
            },
            AstType::Iden => self.name(ast_id, false),
            AstType::Symbol => self.name(ast_id, true),
            AstType::TopBlock(stmts) => self.block(ast_id, stmts.as_slice()),
            AstType::FunctionBlock(stmts) => self.block(ast_id, stmts.as_slice()),
            AstType::Block(stmts) => self.block(ast_id, stmts.as_slice()),
            AstType::FunctionDefinition { ftype, body } => self.function_definition(
                ast_id,
                *ftype,
                *body,
            ),
            AstType::NumberLiteral => self.number_literal(ast_id),
            AstType::FunctionType { .. } => {
                let span = self.span(ast_id);
                self.error(LoweringError::FunctionTypeOutOfPlace, ast_id, span)
            },
            AstType::Return(r) => self.lower_return(ast_id, *r),
            AstType::Add { left, right } => self.add(ast_id, *left, *right),
            AstType::FunctionCall { function, args } => self.function_call(
                ast_id,
                *function,
                *args,
            ),
            AstType::FunctionParams => self.empty_block(),
        }
    }

    /// Lowers `child`, to which the node `parent` refers.
    fn child(&mut self, parent: AstId, child: AstId) -> (r: IrId)
        requires
            parent.0 < old(self).asts@.len(),
        ensures
            final(self).lowers(
                old(self),
                lw_child(
                    nodes_of(old(self).asts@),
                    old(self).source@,
                    parent.0 as int,
                    child,
                    old(self).ir@.len() as int,
                ),
                r,
            ),
        decreases parent.0, 0nat,
    {
        if child.0 < parent.0 {
            self.convert(child)
        } else {
            let span = self.span(parent);
            self.error(LoweringError::MalformedAst, child, span)
        }
    }

    /// Lowers the block at the node `parent` with the children `stmts`: a
    /// place is reserved for the block, the children are lowered behind it,
    /// and the block is then written into its place.
    fn block(&mut self, parent: AstId, stmts: &[AstId]) -> (r: IrId)
        requires
            parent.0 < old(self).asts@.len(),
        ensures
            final(self).lowers(
                old(self),
                lw_block(
                    nodes_of(old(self).asts@),
                    old(self).source@,
                    parent.0 as int,
                    stmts@,
                    old(self).ir@.len() as int,
                ),
                r,
            ),
        decreases parent.0, 2nat,
    {
        let ghost asts = nodes_of(self.asts@);
        let ghost src = self.source@;
        let ghost base = self.ir@.len() as int;
        let ghost before = irs_of(self.ir@);
        let ghost begin = LoweredItems {
            nodes: Seq::empty(),
            errors: Seq::empty(),
            ids: Seq::empty(),
        };
        let block_id = self.reserve();
        let mut ids: Vec<IrId> = Vec::new();
        let ghost mut so_far = begin;
        let mut k: usize = 0;
        while k < stmts.len()
            invariant
                self.same_input(old(self)),
                asts == nodes_of(self.asts@),
                src == self.source@,
                parent.0 < self.asts@.len(),
                base == old(self).ir@.len(),
                before == irs_of(old(self).ir@),
                k <= stmts@.len(),
                k == so_far.ids.len(),
                ids@ == so_far.ids,
                so_far.keep_order(base + 1),
                so_far.mark_errors(),
                self.ir@.len() == base + 1 + so_far.nodes.len(),
                irs_of(self.ir@) =~= before.push(IrNode::Reserved) + so_far.nodes,
                self.errors@ =~= old(self).errors@ + so_far.errors,
                lw_items(asts, src, parent.0 as int, stmts@, base + 1, so_far) == lw_items(
                    asts,
                    src,
                    parent.0 as int,
                    stmts@,
                    base + 1,
                    begin,
                ),
            decreases stmts@.len() - k,
        {
            let ghost one = lw_child(
                asts,
                src,
                parent.0 as int,
                stmts@[k as int],
                base + 1 + so_far.nodes.len(),
            );
            let id = self.child(parent, stmts[k]);
            ids.push(id);
            proof {
                let next = LoweredItems {
                    nodes: so_far.nodes + one.nodes,
                    errors: so_far.errors + one.errors,
                    ids: so_far.ids.push(one.result),
                };
                let first = base + 1;
                assert forall|j: int| 0 <= j < next.nodes.len() implies (
                #[trigger] next.nodes[j]).in_order(first + j, first + next.nodes.len()) by {
                    if j < so_far.nodes.len() {
                        assert(next.nodes[j] == so_far.nodes[j]);
                        lemma_in_order_grows(
                            so_far.nodes[j],
                            first + j,
                            first + so_far.nodes.len(),
                            first + next.nodes.len(),
                        );
                    } else {
                        assert(next.nodes[j] == one.nodes[j - so_far.nodes.len()]);
                    }
                }
                assert forall|i: int| 0 <= i < next.ids.len() implies first <= (
                #[trigger] next.ids[i]).0 < first + next.nodes.len() by {
                    if i < so_far.ids.len() {
                        assert(next.ids[i] == so_far.ids[i]);
                    }
                }
                assert forall|a: int, b: int| 0 <= a < b < next.ids.len() implies (
                #[trigger] next.ids[a]).0 < (#[trigger] next.ids[b]).0 by {
                    assert(next.ids[a] == so_far.ids[a]);
                    if b < so_far.ids.len() {
                        assert(next.ids[b] == so_far.ids[b]);
                    }
                }
                lemma_error_nodes_add(so_far.nodes, one.nodes);
                so_far = next;
            }
            k += 1;
        }
        let ghost children = ids@;
        let ghost prev = self.ir@;
        let block = Ir::Block(ids);
        proof {
            lemma_irs_of_update(prev, base, block);
            assert(block@ == IrNode::Block(children));
            assert(before.len() == base);
            assert((before.push(IrNode::Reserved) + so_far.nodes).update(
                base,
                IrNode::Block(children),
            ) =~= before + (seq![IrNode::Block(children)] + so_far.nodes));
            let l = lw_block(asts, src, parent.0 as int, stmts@, base);
            assert(l.nodes =~= seq![IrNode::Block(children)] + so_far.nodes);
            lemma_error_nodes_push(Seq::empty(), IrNode::Block(children));
            assert(seq![IrNode::Block(children)] =~= Seq::<IrNode>::empty().push(
                IrNode::Block(children),
            ));
            lemma_error_nodes_add(seq![IrNode::Block(children)], so_far.nodes);
            assert forall|j: int| 0 <= j < l.nodes.len() implies (#[trigger] l.nodes[j]).in_order(
                base + j,
                base + l.nodes.len(),
            ) by {
                if j > 0 {
                    assert(l.nodes[j] == so_far.nodes[j - 1]);
                }
            }
        }
        self.ir.set(block_id, block);
        block_id
    }

    /// Lowers the definition at the node `ast_id` of a function with type
    /// `ftype` and body `body`.
    fn function_definition(&mut self, ast_id: AstId, ftype: AstId, body: AstId) -> (r: IrId)
        requires
            ast_id.0 < old(self).asts@.len(),
        ensures
            final(self).lowers(
                old(self),
                lw_function_definition(
                    nodes_of(old(self).asts@),
                    old(self).source@,
                    ast_id.0 as int,
                    ftype,
                    body,
                    old(self).ir@.len() as int,
                ),
                r,
            ),
        decreases ast_id.0, 2nat,
    {
        let span = self.span(ast_id);
        if !(ftype.0 < ast_id.0) {
            return self.error(LoweringError::MalformedAst, ftype, span);
        }
        let (name, params) = match self.ast(ftype) {
            AstType::FunctionType { name, constant_params: _, params } => (*name, *params),
            _ => {
                let span = self.span(ftype);
                return self.error(LoweringError::ExpectedFunctionType, ftype, span);
            },
        };
        if !(body.0 < ast_id.0) {
            return self.error(LoweringError::MalformedAst, body, span);
        }
        match self.ast(body) {
            AstType::FunctionBlock(..) => {},
            _ => {
                let span = self.span(body);
                return self.error(LoweringError::ExpectedFunctionBody, body, span);
            },
        }
        let ghost base = self.ir@.len() as int;
        let ghost asts = nodes_of(self.asts@);
        let ghost src = self.source@;
        let ghost at = ast_id.0 as int;
        let ghost first = lw_child(asts, src, at, name, base);
        let ghost second = lw_child(asts, src, at, params, base + first.nodes.len());
        let ghost named = first.and_lowered(second);
        let ghost typed = named.and_lowered(lw_returns(base + named.nodes.len()));
        let ghost fourth = lw_child(asts, src, at, body, base + typed.nodes.len());
        let ghost all = typed.and_lowered(fourth);
        let iden = self.child(ast_id, name);
        let parameters = self.child(ast_id, params);
        let results = self.return_slot();
        let block = self.child(ast_id, body);
        let ghost joined = IrNode::Deffun {
            iden,
            params: parameters,
            returns: results,
            body: block,
        };
        proof {
            let third = lw_returns(base + named.nodes.len());
            lemma_and_lowered_marks(first, second);
            lemma_and_lowered_marks(named, third);
            lemma_and_lowered_marks(typed, fourth);
            lemma_and_node_marks(all, base, joined);
            lemma_and_lowered_keeps_order(first, second, base);
            lemma_and_lowered_keeps_order(named, third, base);
            lemma_and_lowered_keeps_order(typed, fourth, base);
            self.ir.lemma_len_fits();
            assert(joined.operands() =~= seq![iden, parameters, results, block]);
            assert(joined.pending() =~= Seq::<IrId>::empty());
            lemma_and_node_keeps_order(all, base, joined);
            assert(lw_function_definition(asts, src, at, ftype, body, base) == all.and_node(
                base,
                joined,
            ));
        }
        self.push(Ir::Deffun { iden, params: parameters, returns: results, body: block })
    }

    /// Lowers the `return` at the node `ast_id` of the value `value`.
    fn lower_return(&mut self, ast_id: AstId, value: AstId) -> (r: IrId)
        requires
            ast_id.0 < old(self).asts@.len(),
            nodes_of(old(self).asts@)[ast_id.0 as int].kind == AstKind::Return(value),
        ensures
            final(self).lowers(
                old(self),
                lw_convert(
                    nodes_of(old(self).asts@),
                    old(self).source@,
                    ast_id.0 as int,
                    old(self).ir@.len() as int,
                ),
                r,
            ),
        decreases ast_id.0, 1nat,
    {
        let ghost base = self.ir@.len() as int;
        let ghost lowered = lw_child(
            nodes_of(self.asts@),
            self.source@,
            ast_id.0 as int,
            value,
            base,
        );
        let value = self.child(ast_id, value);
        proof {
            lemma_and_node_marks(
                lowered,
                base,
                IrNode::Return { value, block: IrId::spec_unresolved() },
            );
        }
        self.push(Ir::Return { value, block: IrId::unresolved() })
    }

    /// Lowers the sum at the node `ast_id` of `left` and `right`.
    fn add(&mut self, ast_id: AstId, left: AstId, right: AstId) -> (r: IrId)
        requires
            ast_id.0 < old(self).asts@.len(),
            nodes_of(old(self).asts@)[ast_id.0 as int].kind == (AstKind::Add { left, right }),
        ensures
            final(self).lowers(
                old(self),
                lw_convert(
                    nodes_of(old(self).asts@),
                    old(self).source@,
                    ast_id.0 as int,
                    old(self).ir@.len() as int,
                ),
                r,
            ),
        decreases ast_id.0, 1nat,
    {
        let ghost base = self.ir@.len() as int;
        let ghost asts = nodes_of(self.asts@);
        let ghost first = lw_child(asts, self.source@, ast_id.0 as int, left, base);
        let lhs = self.child(ast_id, left);
        let ghost second = lw_child(
            asts,
            self.source@,
            ast_id.0 as int,
            right,
            base + first.nodes.len(),
        );
        let rhs = self.child(ast_id, right);
        proof {
            lemma_and_lowered_marks(first, second);
            lemma_and_node_marks(first.and_lowered(second), base, IrNode::Add { lhs, rhs });
        }
        self.push(Ir::Add { lhs, rhs })
    }

    /// Lowers the call at the node `ast_id` of `function`; the arguments are
    /// not lowered yet.
    fn function_call(&mut self, ast_id: AstId, function: AstId, args: AstId) -> (r: IrId)
        requires
            ast_id.0 < old(self).asts@.len(),
            nodes_of(old(self).asts@)[ast_id.0 as int].kind == (AstKind::FunctionCall {
                function,
                args,
            }),
        ensures
            final(self).lowers(
                old(self),
                lw_convert(
                    nodes_of(old(self).asts@),
                    old(self).source@,
                    ast_id.0 as int,
                    old(self).ir@.len() as int,
                ),
                r,
            ),
        decreases ast_id.0, 1nat,
    {
        let ghost base = self.ir@.len() as int;
        let ghost lowered = lw_child(
            nodes_of(self.asts@),
            self.source@,
            ast_id.0 as int,
            function,
            base,
        );
        let fun = self.child(ast_id, function);
        proof {
            lemma_and_node_marks(
                lowered,
                base,
                IrNode::Call { fun, args: IrId::spec_unresolved() },
            );
        }
        self.push(Ir::Call { fun, args: IrId::unresolved() })
    }

    /// Lowers the tree from its last node, the program, into the empty arena.
    /// In the arena that results no place is left reserved, every block
    /// stands before its children, which stand one behind the other, and every
    /// other node behind what it refers to. Every error has its error node in
    /// the arena, and every error node its error. Where the tree ends with a
    /// program and the block of the
    /// file, as every tree of the parser does, the first node of the arena is
    /// the block of the file; and where the tree has the shape of the trees
    /// of the parser, the arena is ready for the preparer.
    pub fn generate(&mut self)
        requires
            old(self).asts@.len() > 0,
            old(self).ir@.len() == 0,
            old(self).errors@.len() == 0,
        ensures
            final(self).same_input(old(self)),
            irs_of(final(self).ir@) == lw_convert(
                nodes_of(old(self).asts@),
                old(self).source@,
                old(self).asts@.len() - 1,
                0,
            ).nodes,
            final(self).errors@ == lw_convert(
                nodes_of(old(self).asts@),
                old(self).source@,
                old(self).asts@.len() - 1,
                0,
            ).errors,
            final(self).ir@.len() >= 1,
            ir_well_formed(irs_of(final(self).ir@)),
            error_nodes(irs_of(final(self).ir@)) == final(self).errors@.len(),
            rooted(nodes_of(old(self).asts@)) ==> irs_of(final(self).ir@)[0] is Block,
            well_formed(nodes_of(old(self).asts@)) && rooted(nodes_of(old(self).asts@))
                && nodes_shaped(nodes_of(old(self).asts@), 0, old(self).source@.len() as int)
                ==> ready(irs_of(final(self).ir@)),
    {
        let root = AstId::from(self.asts.len() - 1);
        let ghost asts = nodes_of(self.asts@);
        proof {
            if rooted(asts) {
                self.asts.lemma_len_fits();
                lemma_rooted_lowers_to_block(asts, self.source@);
            }
        }
        self.convert(root);
        proof {
            if well_formed(asts) && rooted(asts) && nodes_shaped(
                asts,
                0,
                self.source@.len() as int,
            ) {
                self.asts.lemma_len_fits();
                self.ir.lemma_len_fits();
                lemma_lowered_tree_is_ready(asts, self.source@);
            }
        }
    }
}

} // verus!
