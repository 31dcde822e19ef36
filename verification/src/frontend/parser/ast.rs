//! The syntax tree: an append-only arena of nodes that refer to one another
//! by handle. A node is created after its children, so every child has a
//! smaller handle than its parent.
use crate::frontend::module::span::Span;
use crate::util::indexed_vector::IndexedVecIndex;
use vstd::prelude::*;

verus! {

/// Names the arena of syntax nodes.
#[derive(Debug, PartialEq, Eq)]
pub struct AstTag;

pub type AstId = IndexedVecIndex<AstTag>;

#[derive(Debug, PartialEq, Eq)]
pub enum AstType {
    /// Top level of a module
    Program(AstId),
    /// Stands where no node could be read
    ErrorAst,
    /// A new name that will create a symbol
    Iden,
    /// A name with a meaning
    Symbol,
    /// A sequence of statements at the file level
    TopBlock(Vec<AstId>),
    /// The body of a function
    FunctionBlock(Vec<AstId>),
    /// A sequence of statements inside a function
    Block(Vec<AstId>),
    FunctionDefinition { ftype: AstId, body: AstId },
    NumberLiteral,
    /// `constant_params` is not resolved yet
    FunctionType { name: AstId, constant_params: AstId, params: AstId },
    Return(AstId),
    Add { left: AstId, right: AstId },
    /// `args` is not resolved yet
    FunctionCall { function: AstId, args: AstId },
    FunctionParams,
}

/// What an [`AstType`] says, with its lists as sequences.
pub enum AstKind {
    Program(AstId),
    ErrorAst,
    Iden,
    Symbol,
    TopBlock(Seq<AstId>),
    FunctionBlock(Seq<AstId>),
    Block(Seq<AstId>),
    FunctionDefinition { ftype: AstId, body: AstId },
    NumberLiteral,
    FunctionType { name: AstId, constant_params: AstId, params: AstId },
    Return(AstId),
    Add { left: AstId, right: AstId },
    FunctionCall { function: AstId, args: AstId },
    FunctionParams,
}

impl View for AstType {
    type V = AstKind;

    open spec fn view(&self) -> AstKind {
        match *self {
            AstType::Program(b) => AstKind::Program(b),
            AstType::ErrorAst => AstKind::ErrorAst,
            AstType::Iden => AstKind::Iden,
            AstType::Symbol => AstKind::Symbol,
            AstType::TopBlock(v) => AstKind::TopBlock(v@),
            AstType::FunctionBlock(v) => AstKind::FunctionBlock(v@),
            AstType::Block(v) => AstKind::Block(v@),
            AstType::FunctionDefinition { ftype, body } => AstKind::FunctionDefinition {
                ftype,
                body,
            },
            AstType::NumberLiteral => AstKind::NumberLiteral,
            AstType::FunctionType { name, constant_params, params } => AstKind::FunctionType {
                name,
                constant_params,
                params,
            },
            AstType::Return(r) => AstKind::Return(r),
            AstType::Add { left, right } => AstKind::Add { left, right },
            AstType::FunctionCall { function, args } => AstKind::FunctionCall { function, args },
            AstType::FunctionParams => AstKind::FunctionParams,
        }
    }
}

impl AstKind {
    /// The nodes that a node of this kind refers to.
    pub open spec fn children(self) -> Seq<AstId> {
        match self {
            AstKind::Program(b) => seq![b],
            AstKind::TopBlock(v) => v,
            AstKind::FunctionBlock(v) => v,
            AstKind::Block(v) => v,
            AstKind::FunctionDefinition { ftype, body } => seq![ftype, body],
            AstKind::FunctionType { name, params, .. } => seq![name, params],
            AstKind::Return(r) => seq![r],
            AstKind::Add { left, right } => seq![left, right],
            AstKind::FunctionCall { function, .. } => seq![function],
            _ => Seq::empty(),
        }
    }

    /// The places of a node of this kind that are to refer to a node, once
    /// the language has what they stand for.
    pub open spec fn pending(self) -> Seq<AstId> {
        match self {
            AstKind::FunctionType { constant_params, .. } => seq![constant_params],
            AstKind::FunctionCall { args, .. } => seq![args],
            _ => Seq::empty(),
        }
    }

    /// Whether every reference of a node of this kind goes to a handle below
    /// `id`, and every place that is to refer to a node later is not
    /// resolved yet.
    pub open spec fn refers_below(self, id: int) -> bool {
        &&& forall|k: int| 0 <= k < self.children().len() ==> (#[trigger] self.children()[k]).0 < id
        &&& forall|k: int|
            0 <= k < self.pending().len() ==> (#[trigger] self.pending()[k]).spec_is_unresolved()
    }
}

#[derive(Debug, PartialEq, Eq)]
pub struct Ast {
    pub id: AstId,
    pub atype: AstType,
    pub span: Span,
}

/// What an [`Ast`] says, with its lists as sequences.
pub struct AstNode {
    pub id: AstId,
    pub kind: AstKind,
    pub span: Span,
}

impl View for Ast {
    type V = AstNode;

    open spec fn view(&self) -> AstNode {
        AstNode { id: self.id, kind: self.atype@, span: self.span }
    }
}

/// The nodes of an arena, each by what it says.
pub open spec fn nodes_of(asts: Seq<Ast>) -> Seq<AstNode> {
    Seq::new(asts.len(), |i: int| asts[i]@)
}

/// Whether `nodes` can be the content of an arena: each node carries its own
/// handle and refers only to nodes that were created before it.
pub open spec fn well_formed(nodes: Seq<AstNode>) -> bool {
    forall|i: int|
        0 <= i < nodes.len() ==> (#[trigger] nodes[i]).id.0 == i && nodes[i].kind.refers_below(i)
}

/// Whether `nodes` end with a program and the block of the file that it
/// wraps: the last node is the program, and the node before it its block.
pub open spec fn rooted(nodes: Seq<AstNode>) -> bool {
    &&& nodes.len() >= 2
    &&& nodes[nodes.len() - 2].kind is TopBlock
    &&& nodes.last().kind == AstKind::Program(AstId::at(nodes.len() - 2))
}

/// Appending to an arena appends to its nodes.
pub proof fn lemma_nodes_of_push(asts: Seq<Ast>, ast: Ast)
    ensures
        nodes_of(asts.push(ast)) == nodes_of(asts).push(ast@),
{
    assert(nodes_of(asts.push(ast)) =~= nodes_of(asts).push(ast@));
}

} // verus!
