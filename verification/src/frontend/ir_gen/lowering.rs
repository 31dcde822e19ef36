//! The lowering, as mathematics: what each kind of syntax node becomes in the
//! intermediate representation.
//!
//! A node is lowered into an arena that holds `base` nodes already and yields
//! a [`Lowered`]: the nodes and errors it appends, and the handle that stands
//! for it.
use crate::frontend::ir_gen::ir::{IrId, IrNode, Type};
use crate::frontend::ir_gen::text::{chars_of, literal_value};
use crate::frontend::module::span::Span;
use crate::frontend::parser::ast::{rooted, AstId, AstKind, AstNode};
use vstd::prelude::*;

verus! {

/// Why a syntax node has no lowering.
#[derive(Copy, Clone, Debug, PartialEq, Eq, Structural)]
pub enum LoweringError {
    /// The node is an error node of the parser.
    ErrorAst,
    /// The type of a function stands where a value is wanted.
    FunctionTypeOutOfPlace,
    /// The definition of a function names something else as its type.
    ExpectedFunctionType,
    /// The definition of a function names something else as its body.
    ExpectedFunctionBody,
    /// The text of a number is no integer that 64 bits hold.
    InvalidNumber,
    /// The node refers to a node that does not stand before it, or its span
    /// leaves the source.
    MalformedAst,
}

impl LoweringError {
    /// The text of the diagnostic.
    pub open spec fn spec_message(self) -> Seq<char> {
        match self {
            LoweringError::ErrorAst => "found error AST"@,
            LoweringError::FunctionTypeOutOfPlace =>
                "found function type where it is not available"@,
            LoweringError::ExpectedFunctionType => "expected function type"@,
            LoweringError::ExpectedFunctionBody => "expected function body"@,
            LoweringError::InvalidNumber => "error while parsing number"@,
            LoweringError::MalformedAst => "malformed AST"@,
        }
    }

    /// The text of the diagnostic.
    pub fn message(&self) -> (r: &'static str)
        ensures
            r@ == self.spec_message(),
    {
        match self {
            LoweringError::ErrorAst => "found error AST",
            LoweringError::FunctionTypeOutOfPlace => {
                "found function type where it is not available"
            },
            LoweringError::ExpectedFunctionType => "expected function type",
            LoweringError::ExpectedFunctionBody => "expected function body",
            LoweringError::InvalidNumber => "error while parsing number",
            LoweringError::MalformedAst => "malformed AST",
        }
    }
}

/// An error of the generator: what went wrong, at which syntax node, and the
/// span it is reported at.
#[derive(Copy, Clone, Debug, PartialEq, Eq)]
pub struct IrGeneratorError {
    pub error: LoweringError,
    pub ast: AstId,
    pub span: Span,
}

/// What lowering a node does: the nodes and the errors it appends, and the
/// handle that stands for the node.
pub struct Lowered {
    pub nodes: Seq<IrNode>,
    pub errors: Seq<IrGeneratorError>,
    pub result: IrId,
}

/// The children of a block so far: the nodes and errors that lowering them
/// appended, and the handles that stand for them.
pub struct LoweredItems {
    pub nodes: Seq<IrNode>,
    pub errors: Seq<IrGeneratorError>,
    pub ids: Seq<IrId>,
}

impl Lowered {
    /// This lowering and then the node `node`, which stands for the whole.
    /// The arena held `base` nodes before the lowering.
    pub open spec fn and_node(self, base: int, node: IrNode) -> Lowered {
        Lowered {
            nodes: self.nodes.push(node),
            errors: self.errors,
            result: IrId::at(base + self.nodes.len()),
        }
    }

    /// This lowering and then `next`, which stands for the whole.
    pub open spec fn and_lowered(self, next: Lowered) -> Lowered {
        Lowered {
            nodes: self.nodes + next.nodes,
            errors: self.errors + next.errors,
            result: next.result,
        }
    }

    /// The lowering that appends nothing.
    pub open spec fn empty() -> Lowered {
        Lowered { nodes: Seq::empty(), errors: Seq::empty(), result: IrId::spec_unresolved() }
    }
}

/// The lowering of what has none: an error node with the text of `error`, and
/// the error itself.
pub open spec fn lw_failure(base: int, error: LoweringError, ast: AstId, span: Span) -> Lowered {
    Lowered {
        nodes: seq![IrNode::Error(error.spec_message())],
        errors: seq![IrGeneratorError { error, ast, span }],
        result: IrId::at(base),
    }
}

/// The lowering of the name at node `id`: the text of its span.
pub open spec fn lw_name(
    asts: Seq<AstNode>,
    src: Seq<u8>,
    id: int,
    base: int,
    is_symbol: bool,
) -> Lowered {
    let span = asts[id].span;
    if span.within(src.len() as int) {
        let name = chars_of(span.text(src));
        Lowered::empty().and_node(
            base,
            if is_symbol {
                IrNode::Symbol(name)
            } else {
                IrNode::Iden(name)
            },
        )
    } else {
        lw_failure(base, LoweringError::MalformedAst, AstId::at(id), span)
    }
}

/// The lowering of the number at node `id`: its type, its value, and the
/// node that joins the two.
pub open spec fn lw_number(asts: Seq<AstNode>, src: Seq<u8>, id: int, base: int) -> Lowered {
    let span = asts[id].span;
    if !span.within(src.len() as int) {
        lw_failure(base, LoweringError::MalformedAst, AstId::at(id), span)
    } else {
        match literal_value(span.text(src)) {
            None => lw_failure(base, LoweringError::InvalidNumber, AstId::at(id), span),
            Some(n) => Lowered::empty().and_node(base, IrNode::Type(Type::U64)).and_node(
                base,
                IrNode::Number(n),
            ).and_node(base, IrNode::Value { value: IrId::at(base + 1), typ: IrId::at(base) }),
        }
    }
}

/// The lowering of node `id`.
pub open spec fn lw_convert(asts: Seq<AstNode>, src: Seq<u8>, id: int, base: int) -> Lowered
    recommends
        0 <= id < asts.len(),
    decreases id, 3nat,
{
    let here = AstId::at(id);
    let span = asts[id].span;
    match asts[id].kind {
        AstKind::Program(block) => lw_child(asts, src, id, block, base),
        AstKind::ErrorAst => lw_failure(base, LoweringError::ErrorAst, here, span),
        AstKind::Iden => lw_name(asts, src, id, base, false),
        AstKind::Symbol => lw_name(asts, src, id, base, true),
        AstKind::TopBlock(stmts) => lw_block(asts, src, id, stmts, base),
        AstKind::FunctionBlock(stmts) => lw_block(asts, src, id, stmts, base),
        AstKind::Block(stmts) => lw_block(asts, src, id, stmts, base),
        AstKind::FunctionDefinition { ftype, body } => lw_function_definition(
            asts,
            src,
            id,
            ftype,
            body,
            base,
        ),
        AstKind::NumberLiteral => lw_number(asts, src, id, base),
        AstKind::FunctionType { .. } => lw_failure(
            base,
            LoweringError::FunctionTypeOutOfPlace,
            here,
            span,
        ),
        AstKind::Return(value) => {
            let value = lw_child(asts, src, id, value, base);
            value.and_node(
                base,
                IrNode::Return { value: value.result, block: IrId::spec_unresolved() },
            )
        },
        AstKind::Add { left, right } => {
            let lhs = lw_child(asts, src, id, left, base);
            let rhs = lw_child(asts, src, id, right, base + lhs.nodes.len());
            lhs.and_lowered(rhs).and_node(base, IrNode::Add { lhs: lhs.result, rhs: rhs.result })
        },
        AstKind::FunctionCall { function, .. } => {
            let fun = lw_child(asts, src, id, function, base);
            fun.and_node(base, IrNode::Call { fun: fun.result, args: IrId::spec_unresolved() })
        },
        AstKind::FunctionParams => Lowered::empty().and_node(base, IrNode::Block(Seq::empty())),
    }
}

/// The lowering of `child`, to which node `parent` refers. A child that does
/// not stand before its parent has none.
pub open spec fn lw_child(
    asts: Seq<AstNode>,
    src: Seq<u8>,
    parent: int,
    child: AstId,
    base: int,
) -> Lowered
    decreases parent, 0nat,
{
    if child.0 < parent {
        lw_convert(asts, src, child.0 as int, base)
    } else {
        lw_failure(base, LoweringError::MalformedAst, child, asts[parent].span)
    }
}

/// The lowering of the children `stmts` of the block at node `parent` that
/// follow `so_far`. The first child is lowered into an arena of `base` nodes.
pub open spec fn lw_items(
    asts: Seq<AstNode>,
    src: Seq<u8>,
    parent: int,
    stmts: Seq<AstId>,
    base: int,
    so_far: LoweredItems,
) -> LoweredItems
    decreases parent, 1nat, stmts.len() - so_far.ids.len(),
{
    let k = so_far.ids.len() as int;
    if k >= stmts.len() {
        so_far
    } else {
        let one = lw_child(asts, src, parent, stmts[k], base + so_far.nodes.len());
        lw_items(
            asts,
            src,
            parent,
            stmts,
            base,
            LoweredItems {
                nodes: so_far.nodes + one.nodes,
                errors: so_far.errors + one.errors,
                ids: so_far.ids.push(one.result),
            },
        )
    }
}

/// The lowering of the block at node `parent` with the children `stmts`: the
/// block first, then its children in their order.
pub open spec fn lw_block(
    asts: Seq<AstNode>,
    src: Seq<u8>,
    parent: int,
    stmts: Seq<AstId>,
    base: int,
) -> Lowered
    decreases parent, 2nat,
{
    let items = lw_items(
        asts,
        src,
        parent,
        stmts,
        base + 1,
        LoweredItems { nodes: Seq::empty(), errors: Seq::empty(), ids: Seq::empty() },
    );
    Lowered {
        nodes: seq![IrNode::Block(items.ids)] + items.nodes,
        errors: items.errors,
        result: IrId::at(base),
    }
}

/// The place of what a function returns: for now the type of a 64-bit
/// unsigned integer.
pub open spec fn lw_returns(base: int) -> Lowered {
    Lowered::empty().and_node(base, IrNode::Type(Type::U64))
}

/// The lowering of the definition at node `id` of a function with type
/// `ftype` and body `body`: its name, its parameters, what it returns, its
/// body, and the node that joins the four.
pub open spec fn lw_function_definition(
    asts: Seq<AstNode>,
    src: Seq<u8>,
    id: int,
    ftype: AstId,
    body: AstId,
    base: int,
) -> Lowered
    decreases id, 2nat,
{
    let span = asts[id].span;
    if !(ftype.0 < id) {
        lw_failure(base, LoweringError::MalformedAst, ftype, span)
    } else {
        match asts[ftype.0 as int].kind {
            AstKind::FunctionType { name, constant_params, params } => {
                if !(body.0 < id) {
                    lw_failure(base, LoweringError::MalformedAst, body, span)
                } else if !(asts[body.0 as int].kind is FunctionBlock) {
                    lw_failure(
                        base,
                        LoweringError::ExpectedFunctionBody,
                        body,
                        asts[body.0 as int].span,
                    )
                } else {
                    let iden = lw_child(asts, src, id, name, base);
                    let named = iden.and_lowered(
                        lw_child(asts, src, id, params, base + iden.nodes.len()),
                    );
                    let typed = named.and_lowered(lw_returns(base + named.nodes.len()));
                    let all = typed.and_lowered(
                        lw_child(asts, src, id, body, base + typed.nodes.len()),
                    );
                    all.and_node(
                        base,
                        IrNode::Deffun {
                            iden: iden.result,
                            params: named.result,
                            returns: typed.result,
                            body: all.result,
                        },
                    )
                }
            },
            _ => lw_failure(
                base,
                LoweringError::ExpectedFunctionType,
                ftype,
                asts[ftype.0 as int].span,
            ),
        }
    }
}

/// The number of error nodes among `nodes`.
pub open spec fn error_nodes(nodes: Seq<IrNode>) -> nat
    decreases nodes.len(),
{
    if nodes.len() == 0 {
        0
    } else if nodes.last() is Error {
        error_nodes(nodes.drop_last()) + 1
    } else {
        error_nodes(nodes.drop_last())
    }
}

/// The error nodes of two stretches of nodes are those of the one and those
/// of the other.
pub proof fn lemma_error_nodes_add(a: Seq<IrNode>, b: Seq<IrNode>)
    ensures
        error_nodes(a + b) == error_nodes(a) + error_nodes(b),
    decreases b.len(),
{
    if b.len() == 0 {
        assert(a + b =~= a);
    } else {
        assert((a + b).drop_last() =~= a + b.drop_last());
        lemma_error_nodes_add(a, b.drop_last());
    }
}

/// One node more has one error node more where it is an error node.
pub proof fn lemma_error_nodes_push(a: Seq<IrNode>, node: IrNode)
    ensures
        error_nodes(a.push(node)) == error_nodes(a) + if node is Error {
            1nat
        } else {
            0nat
        },
{
    assert(a.push(node).drop_last() =~= a);
}

impl Lowered {
    /// Whether the nodes of this lowering, appended to an arena of `base`
    /// nodes, keep the order of the arena, and the handle that stands for the
    /// whole is one of theirs.
    pub open spec fn keeps_order(self, base: int) -> bool {
        &&& self.nodes.len() >= 1
        &&& base <= self.result.0 < base + self.nodes.len()
        &&& forall|j: int|
            0 <= j < self.nodes.len() ==> (#[trigger] self.nodes[j]).in_order(
                base + j,
                base + self.nodes.len(),
            )
    }
}

impl Lowered {
    /// Whether every error of this lowering has its error node, and every
    /// error node its error.
    pub open spec fn marks_errors(self) -> bool {
        error_nodes(self.nodes) == self.errors.len()
    }
}

impl LoweredItems {
    /// Whether every error of these children has its error node, and every
    /// error node its error.
    pub open spec fn mark_errors(self) -> bool {
        error_nodes(self.nodes) == self.errors.len()
    }

    /// Whether the nodes of these children, appended to an arena of `base`
    /// nodes, keep the order of the arena, and the handles that stand for the
    /// children are among theirs and rise from child to child.
    pub open spec fn keep_order(self, base: int) -> bool {
        &&& forall|j: int|
            0 <= j < self.nodes.len() ==> (#[trigger] self.nodes[j]).in_order(
                base + j,
                base + self.nodes.len(),
            )
        &&& forall|k: int|
            0 <= k < self.ids.len() ==> base <= (#[trigger] self.ids[k]).0 < base
                + self.nodes.len()
        &&& forall|a: int, b: int|
            0 <= a < b < self.ids.len() ==> (#[trigger] self.ids[a]).0 < (
            #[trigger] self.ids[b]).0
    }
}

/// A node that keeps the order of an arena keeps it when the arena grows.
pub proof fn lemma_in_order_grows(node: IrNode, id: int, len: int, longer: int)
    requires
        node.in_order(id, len),
        len <= longer,
    ensures
        node.in_order(id, longer),
{
}

/// Two lowerings that keep the order of the arena, the second behind the
/// first, keep it together.
pub proof fn lemma_and_lowered_keeps_order(a: Lowered, b: Lowered, base: int)
    requires
        a.keeps_order(base),
        b.keeps_order(base + a.nodes.len()),
    ensures
        a.and_lowered(b).keeps_order(base),
{
    let both = a.and_lowered(b);
    assert forall|j: int| 0 <= j < both.nodes.len() implies (#[trigger] both.nodes[j]).in_order(
        base + j,
        base + both.nodes.len(),
    ) by {
        if j < a.nodes.len() {
            assert(both.nodes[j] == a.nodes[j]);
            lemma_in_order_grows(
                a.nodes[j],
                base + j,
                base + a.nodes.len(),
                base + both.nodes.len(),
            );
        } else {
            assert(both.nodes[j] == b.nodes[j - a.nodes.len()]);
        }
    }
}

/// A lowering that keeps the order of the arena keeps it with one node more
/// that keeps it.
pub proof fn lemma_and_node_keeps_order(l: Lowered, base: int, node: IrNode)
    requires
        l.keeps_order(base),
        base + l.nodes.len() <= usize::MAX,
        node.in_order(base + l.nodes.len(), base + l.nodes.len() + 1),
    ensures
        l.and_node(base, node).keeps_order(base),
{
    let more = l.and_node(base, node);
    assert forall|j: int| 0 <= j < more.nodes.len() implies (#[trigger] more.nodes[j]).in_order(
        base + j,
        base + more.nodes.len(),
    ) by {
        if j < l.nodes.len() {
            assert(more.nodes[j] == l.nodes[j]);
            lemma_in_order_grows(
                l.nodes[j],
                base + j,
                base + l.nodes.len(),
                base + more.nodes.len(),
            );
        }
    }
}

/// What has no lowering is marked: its one node is an error node, and its
/// one error goes with it.
pub proof fn lemma_failure_marks(base: int, error: LoweringError, ast: AstId, span: Span)
    ensures
        lw_failure(base, error, ast, span).marks_errors(),
{
    lemma_error_nodes_push(Seq::empty(), IrNode::Error(error.spec_message()));
    assert(lw_failure(base, error, ast, span).nodes =~= Seq::<IrNode>::empty().push(
        IrNode::Error(error.spec_message()),
    ));
}

/// A node that is no error node adds no error.
pub proof fn lemma_and_node_marks(l: Lowered, base: int, node: IrNode)
    requires
        l.marks_errors(),
        !(node is Error),
    ensures
        l.and_node(base, node).marks_errors(),
{
    lemma_error_nodes_push(l.nodes, node);
}

/// Two lowerings that mark their errors mark them together.
pub proof fn lemma_and_lowered_marks(a: Lowered, b: Lowered)
    requires
        a.marks_errors(),
        b.marks_errors(),
    ensures
        a.and_lowered(b).marks_errors(),
{
    lemma_error_nodes_add(a.nodes, b.nodes);
}

/// The place of what a function returns holds no error.
pub proof fn lemma_returns_marks(base: int)
    ensures
        lw_returns(base).marks_errors(),
{
    lemma_and_node_marks(Lowered::empty(), base, IrNode::Type(Type::U64));
}

/// A tree that ends with a program and the block of the file lowers to an
/// arena whose first node is the block of the file.
pub proof fn lemma_rooted_lowers_to_block(asts: Seq<AstNode>, src: Seq<u8>)
    requires
        rooted(asts),
        asts.len() <= usize::MAX,
    ensures
        lw_convert(asts, src, asts.len() - 1, 0).nodes[0] is Block,
{
    let program = asts.len() - 1;
    let block = AstId::at(asts.len() - 2);
    assert(lw_convert(asts, src, program, 0) == lw_child(asts, src, program, block, 0));
    assert(lw_child(asts, src, program, block, 0) == lw_convert(asts, src, program - 1, 0));
    let stmts = asts[program - 1].kind->TopBlock_0;
    assert(lw_convert(asts, src, program - 1, 0) == lw_block(asts, src, program - 1, stmts, 0));
}

} // verus!
