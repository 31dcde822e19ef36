//! The skeleton of bytecode: the markers that open and close functions and
//! scopes, and the places of what is not emitted yet.
use crate::util::indexed_vector::IndexedVecIndex;
use vstd::prelude::*;

verus! {

/// Names the arena of bytecode.
#[derive(Debug, PartialEq, Eq)]
pub struct BytecodeTag;

pub type BytecodeId = IndexedVecIndex<BytecodeTag>;

/// Names the arena of scopes.
#[derive(Debug, PartialEq, Eq)]
pub struct ScopeTag;

pub type ScopeId = IndexedVecIndex<ScopeTag>;

/// Names the arena of functions.
#[derive(Debug, PartialEq, Eq)]
pub struct FunctionTag;

pub type FunctionId = IndexedVecIndex<FunctionTag>;

/// The way from one place of the bytecode to another: the number of places
/// to go forward, or backward where it is negative.
#[derive(Copy, Clone, Debug, PartialEq, Eq)]
pub struct RelBytecodeId(pub isize);

impl RelBytecodeId {
    /// The way from `source` to `target`, which must be short enough to be
    /// held.
    pub fn new(source: BytecodeId, target: BytecodeId) -> (r: RelBytecodeId)
        requires
            isize::MIN <= target.0 - source.0 <= isize::MAX,
        ensures
            r.0 == target.0 - source.0,
    {
        if target.0 >= source.0 {
            RelBytecodeId((target.0 - source.0) as isize)
        } else {
            let back = source.0 - target.0 - 1;
            RelBytecodeId(-(back as isize) - 1)
        }
    }

    /// The place that this way leads to from `source`, which must exist.
    pub fn into_bytecode(self, source: BytecodeId) -> (r: BytecodeId)
        requires
            0 <= source.0 + self.0 <= usize::MAX,
        ensures
            r.0 == source.0 + self.0,
    {
        if self.0 >= 0 {
            BytecodeId::from(source.0 + (self.0 as usize))
        } else {
            let back = (-(self.0 + 1)) as usize;
            BytecodeId::from(source.0 - back - 1)
        }
    }
}

#[derive(Debug, PartialEq, Eq)]
pub struct Bytecode {
    pub tag: BytecodeData,
    pub typ: BytecodeType,
}

impl Bytecode {
    /// The bytecode `data`, which yields no value.
    pub fn new(data: BytecodeData) -> (r: Bytecode)
        ensures
            r == (Bytecode { tag: data, typ: BytecodeType::Never }),
    {
        Bytecode { tag: data, typ: BytecodeType::Never }
    }
}

#[derive(Debug, PartialEq, Eq)]
pub enum BytecodeData {
    Error(String),
    Reserved,
    JumpScope(ScopeId),
    JumpRel(RelBytecodeId),
    Jump(BytecodeId),
    FunStart(FunctionId),
    FunEnd(FunctionId),
    ScopeStart(ScopeId),
    ScopeEnd(ScopeId),
}

pub type TypeId = u32;

#[derive(Debug, PartialEq, Eq)]
pub enum BytecodeType {
    U64,
    Type,
    _Fun(TypeId),
    NoReturn,
    Never,
}

/// What a marker opened that is not closed yet.
pub enum Marker {
    Scope(ScopeId),
    Fun(FunctionId),
}

/// What is open after the bytecode `data`, where `open` was open before it,
/// innermost last. A start opens its scope or function. An end closes what
/// was opened last, which must be its own scope or function; else the
/// bytecode is not nested and the result is `None`.
pub open spec fn open_after(open: Option<Seq<Marker>>, data: BytecodeData) -> Option<Seq<Marker>> {
    match open {
        None => None,
        Some(open) => match data {
            BytecodeData::ScopeStart(id) => Some(open.push(Marker::Scope(id))),
            BytecodeData::FunStart(id) => Some(open.push(Marker::Fun(id))),
            BytecodeData::ScopeEnd(id) => if open.len() > 0 && open.last() == Marker::Scope(id) {
                Some(open.drop_last())
            } else {
                None
            },
            BytecodeData::FunEnd(id) => if open.len() > 0 && open.last() == Marker::Fun(id) {
                Some(open.drop_last())
            } else {
                None
            },
            _ => Some(open),
        },
    }
}

/// The scopes and functions that `code` leaves open, innermost last, or
/// `None` where an end in `code` does not close what was opened last.
pub open spec fn open_markers(code: Seq<Bytecode>) -> Option<Seq<Marker>>
    decreases code.len(),
{
    if code.len() == 0 {
        Some(Seq::empty())
    } else {
        open_after(open_markers(code.drop_last()), code.last().tag)
    }
}

/// Whether the scopes and functions of `code` are nested and closed: every
/// end closes the start that was opened last and has its handle, and no
/// start is left open.
pub open spec fn balanced(code: Seq<Bytecode>) -> bool {
    open_markers(code) == Some(Seq::<Marker>::empty())
}

/// Whether the handles of the scopes that `code` opens rise from start to
/// start.
pub open spec fn scope_starts_rise(code: Seq<Bytecode>) -> bool {
    forall|i: int, j: int|
        0 <= i < j < code.len() && (#[trigger] code[i]).tag is ScopeStart && (
        #[trigger] code[j]).tag is ScopeStart ==> code[i].tag->ScopeStart_0.0
            < code[j].tag->ScopeStart_0.0
}

/// Whether the handles of the functions that `code` opens rise from start to
/// start.
pub open spec fn function_starts_rise(code: Seq<Bytecode>) -> bool {
    forall|i: int, j: int|
        0 <= i < j < code.len() && (#[trigger] code[i]).tag is FunStart && (
        #[trigger] code[j]).tag is FunStart ==> code[i].tag->FunStart_0.0
            < code[j].tag->FunStart_0.0
}

/// Whether the starts of `code` open each scope and each function once: the
/// handles of the scopes rise from start to start, and so do those of the
/// functions.
pub open spec fn starts_once(code: Seq<Bytecode>) -> bool {
    scope_starts_rise(code) && function_starts_rise(code)
}

/// What is open after one more bytecode.
pub proof fn lemma_open_markers_push(code: Seq<Bytecode>, b: Bytecode)
    ensures
        open_markers(code.push(b)) == open_after(open_markers(code), b.tag),
{
    assert(code.push(b).drop_last() =~= code);
}

} // verus!
