//! The intermediate representation: an append-only arena of nodes in which a
//! block stands before its children and every other node behind its own.
use crate::util::indexed_vector::IndexedVecIndex;
use vstd::prelude::*;

verus! {

/// Names the arena of the intermediate representation.
#[derive(Debug, PartialEq, Eq)]
pub struct IrTag;

pub type IrId = IndexedVecIndex<IrTag>;

#[derive(Debug, PartialEq, Eq)]
pub enum Type {
    U64,
    Fun { params: IrId, returns: IrId },
}

#[derive(Debug, PartialEq, Eq)]
pub enum Ir {
    Error(String),
    /// Holds the place of a block whose children are being made
    Reserved,
    Type(Type),
    /// A name that is introduced
    Iden(String),
    /// A name that is used
    Symbol(String),
    Block(Vec<IrId>),
    Number(u64),
    Value { value: IrId, typ: IrId },
    Add { lhs: IrId, rhs: IrId },
    /// `block` is not resolved yet
    Return { value: IrId, block: IrId },
    Decl(String),
    /// `args` is not resolved yet
    Call { fun: IrId, args: IrId },
    Deffun { iden: IrId, params: IrId, returns: IrId, body: IrId },
}

/// What an [`Ir`] says, with its texts and lists as sequences.
pub enum IrNode {
    Error(Seq<char>),
    Reserved,
    Type(Type),
    Iden(Seq<char>),
    Symbol(Seq<char>),
    Block(Seq<IrId>),
    Number(u64),
    Value { value: IrId, typ: IrId },
    Add { lhs: IrId, rhs: IrId },
    Return { value: IrId, block: IrId },
    Decl(Seq<char>),
    Call { fun: IrId, args: IrId },
    Deffun { iden: IrId, params: IrId, returns: IrId, body: IrId },
}

impl View for Ir {
    type V = IrNode;

    open spec fn view(&self) -> IrNode {
        match *self {
            Ir::Error(s) => IrNode::Error(s@),
            Ir::Reserved => IrNode::Reserved,
            Ir::Type(t) => IrNode::Type(t),
            Ir::Iden(s) => IrNode::Iden(s@),
            Ir::Symbol(s) => IrNode::Symbol(s@),
            Ir::Block(v) => IrNode::Block(v@),
            Ir::Number(n) => IrNode::Number(n),
            Ir::Value { value, typ } => IrNode::Value { value, typ },
            Ir::Add { lhs, rhs } => IrNode::Add { lhs, rhs },
            Ir::Return { value, block } => IrNode::Return { value, block },
            Ir::Decl(s) => IrNode::Decl(s@),
            Ir::Call { fun, args } => IrNode::Call { fun, args },
            Ir::Deffun { iden, params, returns: results, body } => IrNode::Deffun {
                iden,
                params,
                returns: results,
                body,
            },
        }
    }
}

impl IrNode {
    /// The nodes that a node refers to, where it is no block.
    pub open spec fn operands(self) -> Seq<IrId> {
        match self {
            IrNode::Type(Type::Fun { params, returns: results }) => seq![params, results],
            IrNode::Value { value, typ } => seq![value, typ],
            IrNode::Add { lhs, rhs } => seq![lhs, rhs],
            IrNode::Return { value, .. } => seq![value],
            IrNode::Call { fun, .. } => seq![fun],
            IrNode::Deffun { iden, params, returns: results, body } => seq![
                iden,
                params,
                results,
                body,
            ],
            _ => Seq::empty(),
        }
    }

    /// The places of a node that are to refer to a node, once the generator
    /// knows what they stand for.
    pub open spec fn pending(self) -> Seq<IrId> {
        match self {
            IrNode::Return { block, .. } => seq![block],
            IrNode::Call { args, .. } => seq![args],
            _ => Seq::empty(),
        }
    }

    /// Whether a node with handle `id`, in an arena of `len` nodes, keeps the
    /// order of the arena: a block refers only to nodes behind it, to each
    /// child behind the one before; any other node refers only to nodes
    /// before it; what is to refer to a node later is not resolved yet; and no
    /// place is left reserved.
    pub open spec fn in_order(self, id: int, len: int) -> bool {
        match self {
            IrNode::Reserved => false,
            IrNode::Block(v) => {
                &&& forall|k: int| 0 <= k < v.len() ==> id < (#[trigger] v[k]).0 < len
                &&& forall|a: int, b: int|
                    0 <= a < b < v.len() ==> (#[trigger] v[a]).0 < (#[trigger] v[b]).0
            },
            _ => {
                &&& forall|k: int|
                    0 <= k < self.operands().len() ==> (#[trigger] self.operands()[k]).0 < id
                &&& forall|k: int|
                    0 <= k < self.pending().len() ==> (
                    #[trigger] self.pending()[k]).spec_is_unresolved()
            },
        }
    }
}

/// The nodes of an arena, each by what it says.
pub open spec fn irs_of(irs: Seq<Ir>) -> Seq<IrNode> {
    Seq::new(irs.len(), |i: int| irs[i]@)
}

/// Whether every node of `nodes`, taken as the whole of an arena, keeps the
/// order of the arena.
pub open spec fn ir_well_formed(nodes: Seq<IrNode>) -> bool {
    forall|i: int| 0 <= i < nodes.len() ==> (#[trigger] nodes[i]).in_order(i, nodes.len() as int)
}

/// Appending to an arena appends to its nodes.
pub proof fn lemma_irs_of_push(irs: Seq<Ir>, ir: Ir)
    ensures
        irs_of(irs.push(ir)) == irs_of(irs).push(ir@),
{
    assert(irs_of(irs.push(ir)) =~= irs_of(irs).push(ir@));
}

/// Overwriting a place of an arena overwrites it among its nodes.
pub proof fn lemma_irs_of_update(irs: Seq<Ir>, i: int, ir: Ir)
    requires
        0 <= i < irs.len(),
    ensures
        irs_of(irs.update(i, ir)) == irs_of(irs).update(i, ir@),
{
    assert(irs_of(irs.update(i, ir)) =~= irs_of(irs).update(i, ir@));
}

} // verus!
