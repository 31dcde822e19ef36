//! What the generator makes of every tree of the parser is ready for the
//! preparer: the first node is the block of the file, and what the block
//! holds is an error node or the definition of a function with a name and a
//! block for a body.
use crate::frontend::ir_gen::ir::IrNode;
use crate::frontend::ir_gen::lowering::{
    lw_block, lw_child, lw_convert, lw_function_definition, lw_items, lw_name, lw_returns,
    LoweredItems,
};
use crate::frontend::parser::ast::{rooted, well_formed, AstId, AstKind, AstNode};
use crate::frontend::parser::shape::{node_shaped, nodes_shaped, top_level};
use vstd::prelude::*;

verus! {

/// Whether the node at position `j` of `nodes`, which stand in an arena from
/// handle `base` on, may stand in the top block: it is an error node, or the
/// definition of a function whose name is a name and whose body is a block,
/// both among `nodes`.
pub open spec fn element_ready(nodes: Seq<IrNode>, base: int, j: int) -> bool {
    ||| nodes[j] is Error
    ||| nodes[j] matches IrNode::Deffun { iden, body, .. } && {
        &&& base <= iden.0 < base + nodes.len()
        &&& nodes[iden.0 - base] is Iden
        &&& base <= body.0 < base + nodes.len()
        &&& nodes[body.0 - base] is Block
    }
}

/// Whether the arena `nodes` is ready for the preparer: its first node is a
/// block, and what the block holds may stand in the top block.
pub open spec fn ready(nodes: Seq<IrNode>) -> bool {
    &&& nodes.len() >= 1
    &&& nodes[0] matches IrNode::Block(elems) && forall|k: int|
        0 <= k < elems.len() ==> 0 <= (#[trigger] elems[k]).0 < nodes.len() && element_ready(
            nodes,
            0,
            elems[k].0 as int,
        )
}

/// Whether the children `items`, whose nodes stand in an arena from handle
/// `base` on, may all stand in the top block.
pub open spec fn items_ready(items: LoweredItems, base: int) -> bool {
    forall|k: int|
        0 <= k < items.ids.len() ==> base <= (#[trigger] items.ids[k]).0 < base
            + items.nodes.len() && element_ready(items.nodes, base, items.ids[k].0 - base)
}

/// What may stand in the top block may do so when more nodes follow.
pub proof fn lemma_element_ready_add(a: Seq<IrNode>, b: Seq<IrNode>, base: int, j: int)
    requires
        0 <= j < a.len(),
        element_ready(a, base, j),
    ensures
        element_ready(a + b, base, j),
{
    let all = a + b;
    assert(all[j] == a[j]);
    match a[j] {
        IrNode::Deffun { iden, body, .. } => {
            assert(all[iden.0 - base] == a[iden.0 - base]);
            assert(all[body.0 - base] == a[body.0 - base]);
        },
        _ => {},
    }
}

/// What may stand in the top block may do so behind other nodes.
pub proof fn lemma_element_ready_behind(a: Seq<IrNode>, b: Seq<IrNode>, base: int, j: int)
    requires
        0 <= j < b.len(),
        element_ready(b, base + a.len(), j),
    ensures
        element_ready(a + b, base, a.len() + j),
{
    let all = a + b;
    assert(all[a.len() + j] == b[j]);
    match b[j] {
        IrNode::Deffun { iden, body, .. } => {
            assert(all[iden.0 - base] == b[iden.0 - base - a.len()]);
            assert(all[body.0 - base] == b[body.0 - base - a.len()]);
        },
        _ => {},
    }
}

/// The children of a block never lose a node.
pub proof fn lemma_items_grow(
    asts: Seq<AstNode>,
    src: Seq<u8>,
    parent: int,
    stmts: Seq<AstId>,
    base: int,
    so_far: LoweredItems,
)
    ensures
        lw_items(asts, src, parent, stmts, base, so_far).nodes.len() >= so_far.nodes.len(),
    decreases stmts.len() - so_far.ids.len(),
{
    let k = so_far.ids.len() as int;
    if k < stmts.len() {
        let one = lw_child(asts, src, parent, stmts[k], base + so_far.nodes.len());
        lemma_items_grow(
            asts,
            src,
            parent,
            stmts,
            base,
            LoweredItems {
                nodes: so_far.nodes + one.nodes,
                errors: so_far.errors + one.errors,
                ids: so_far.ids.push(one.result),
            },
        );
    }
}

/// A statement of the file lowers to what may stand in the top block: the
/// node that stands for it is the last of its lowering, and is an error node
/// or the definition of a function with a name and a block for a body.
pub proof fn lemma_statement_ready(
    asts: Seq<AstNode>,
    src: Seq<u8>,
    id: int,
    base: int,
)
    requires
        well_formed(asts),
        nodes_shaped(asts, 0, src.len() as int),
        asts.len() <= usize::MAX,
        0 <= id < asts.len(),
        top_level(asts[id].kind),
        0 <= base,
        base + lw_convert(asts, src, id, base).nodes.len() <= usize::MAX,
    ensures
        lw_convert(asts, src, id, base).nodes.len() >= 1,
        lw_convert(asts, src, id, base).result.0 == base + lw_convert(
            asts,
            src,
            id,
            base,
        ).nodes.len() - 1,
        element_ready(
            lw_convert(asts, src, id, base).nodes,
            base,
            lw_convert(asts, src, id, base).nodes.len() - 1,
        ),
{
    let whole = lw_convert(asts, src, id, base);
    match asts[id].kind {
        AstKind::FunctionDefinition { ftype, body } => {
            assert(asts[id].kind.children() =~= seq![ftype, body]);
            assert(asts[id].kind.children()[0] == ftype);
            assert(asts[id].kind.children()[1] == body);
            assert(whole == lw_function_definition(asts, src, id, ftype, body, base));
            match asts[ftype.0 as int].kind {
                AstKind::FunctionType { name, constant_params, params } => {
                    if asts[body.0 as int].kind is FunctionBlock {
                        let stmts = asts[body.0 as int].kind->FunctionBlock_0;
                        let kind = asts[ftype.0 as int].kind;
                        assert(kind.children() =~= seq![name, params]);
                        assert(kind.children()[0] == name);
                        assert(node_shaped(asts, 0, ftype.0 as int, src.len() as int));
                        assert(node_shaped(asts, 0, name.0 as int, src.len() as int));
                        let first = lw_child(asts, src, id, name, base);
                        assert(first == lw_convert(asts, src, name.0 as int, base));
                        assert(first == lw_name(asts, src, name.0 as int, base, false));
                        assert(first.nodes.len() == 1);
                        assert(first.nodes[0] is Iden);
                        let second = lw_child(asts, src, id, params, base + first.nodes.len());
                        let named = first.and_lowered(second);
                        let typed = named.and_lowered(lw_returns(base + named.nodes.len()));
                        let fourth = lw_child(asts, src, id, body, base + typed.nodes.len());
                        assert(fourth == lw_convert(
                            asts,
                            src,
                            body.0 as int,
                            base + typed.nodes.len(),
                        ));
                        assert(fourth == lw_block(
                            asts,
                            src,
                            body.0 as int,
                            stmts,
                            base + typed.nodes.len(),
                        ));
                        assert(fourth.nodes[0] is Block);
                        let all = typed.and_lowered(fourth);
                        let joined = IrNode::Deffun {
                            iden: first.result,
                            params: named.result,
                            returns: typed.result,
                            body: all.result,
                        };
                        assert(whole == all.and_node(base, joined));
                        assert(whole.nodes[0] == first.nodes[0]);
                        assert(whole.nodes[typed.nodes.len() as int] == fourth.nodes[0]);
                    }
                },
                _ => {},
            }
        },
        _ => {},
    }
}

/// The statements of the file lower to what may stand in the top block,
/// where those so far do.
pub proof fn lemma_items_ready(
    asts: Seq<AstNode>,
    src: Seq<u8>,
    parent: int,
    stmts: Seq<AstId>,
    base: int,
    so_far: LoweredItems,
)
    requires
        well_formed(asts),
        nodes_shaped(asts, 0, src.len() as int),
        asts.len() <= usize::MAX,
        0 <= parent < asts.len(),
        forall|k: int|
            0 <= k < stmts.len() ==> 0 <= (#[trigger] stmts[k]).0 < parent && top_level(
                asts[stmts[k].0 as int].kind,
            ),
        0 <= base,
        so_far.ids.len() <= stmts.len(),
        items_ready(so_far, base),
        base + lw_items(asts, src, parent, stmts, base, so_far).nodes.len() <= usize::MAX,
    ensures
        items_ready(lw_items(asts, src, parent, stmts, base, so_far), base),
    decreases stmts.len() - so_far.ids.len(),
{
    let k = so_far.ids.len() as int;
    if k < stmts.len() {
        let at = base + so_far.nodes.len();
        let one = lw_child(asts, src, parent, stmts[k], at);
        let next = LoweredItems {
            nodes: so_far.nodes + one.nodes,
            errors: so_far.errors + one.errors,
            ids: so_far.ids.push(one.result),
        };
        lemma_items_grow(asts, src, parent, stmts, base, next);
        assert(one == lw_convert(asts, src, stmts[k].0 as int, at));
        lemma_statement_ready(asts, src, stmts[k].0 as int, at);
        assert forall|i: int| 0 <= i < next.ids.len() implies base <= (#[trigger] next.ids[i]).0
            < base + next.nodes.len() && element_ready(next.nodes, base, next.ids[i].0 - base) by {
            if i < so_far.ids.len() {
                assert(next.ids[i] == so_far.ids[i]);
                lemma_element_ready_add(so_far.nodes, one.nodes, base, so_far.ids[i].0 - base);
            } else {
                lemma_element_ready_behind(so_far.nodes, one.nodes, base, one.nodes.len() - 1);
            }
        }
        lemma_items_ready(asts, src, parent, stmts, base, next);
    }
}

/// The law of the stages. A tree that is well formed, ends with a program and
/// the block of the file, and has the shape of the trees of the parser,
/// lowers to an arena that is ready for the preparer.
pub proof fn lemma_lowered_tree_is_ready(asts: Seq<AstNode>, src: Seq<u8>)
    requires
        well_formed(asts),
        rooted(asts),
        nodes_shaped(asts, 0, src.len() as int),
        asts.len() <= usize::MAX,
        lw_convert(asts, src, asts.len() - 1, 0).nodes.len() <= usize::MAX,
    ensures
        ready(lw_convert(asts, src, asts.len() - 1, 0).nodes),
{
    let program = asts.len() - 1;
    let block = AstId::at(asts.len() - 2);
    let whole = lw_convert(asts, src, program, 0);
    assert(whole == lw_child(asts, src, program, block, 0));
    assert(whole == lw_convert(asts, src, program - 1, 0));
    let stmts = asts[program - 1].kind->TopBlock_0;
    assert(whole == lw_block(asts, src, program - 1, stmts, 0));
    let begin = LoweredItems { nodes: Seq::empty(), errors: Seq::empty(), ids: Seq::empty() };
    let items = lw_items(asts, src, program - 1, stmts, 1, begin);
    assert(node_shaped(asts, 0, program - 1, src.len() as int));
    assert(whole.nodes =~= seq![IrNode::Block(items.ids)] + items.nodes);
    lemma_items_ready(asts, src, program - 1, stmts, 1, begin);
    let first = seq![IrNode::Block(items.ids)];
    assert forall|k: int| 0 <= k < items.ids.len() implies 0 <= (#[trigger] items.ids[k]).0
        < whole.nodes.len() && element_ready(whole.nodes, 0, items.ids[k].0 as int) by {
        lemma_element_ready_behind(first, items.nodes, 0, items.ids[k].0 - 1);
    }
}

} // verus!
