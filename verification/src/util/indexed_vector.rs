//! Append-only arenas addressed by typed integer handles.
//!
//! Every arena of the compiler is an [`IndexedVec`]. A handle into it is an
//! [`IndexedVecIndex`] whose type parameter names the arena, so that a handle
//! of one arena cannot be handed to another. Handles are given out in
//! allocation order, starting at 0, and stay valid for the life of the arena.
use std::marker::PhantomData;
use vstd::prelude::*;
use vstd::std_specs::cmp::PartialEqSpecImpl;
use vstd::std_specs::convert::{FromSpec, FromSpecImpl};

verus! {

/// A handle into the arena named by `K`.
///
/// The handle is the position of the entry. The value `usize::MAX` is never the
/// position of an entry and stands for a reference that is not resolved yet.
#[derive(Debug)]
pub struct IndexedVecIndex<K>(pub usize, pub PhantomData<K>);

impl<K> Clone for IndexedVecIndex<K> {
    fn clone(&self) -> (r: Self)
        ensures
            r == *self,
    {
        *self
    }
}

impl<K> Copy for IndexedVecIndex<K> {

}

impl<K> PartialEq for IndexedVecIndex<K> {
    fn eq(&self, other: &Self) -> (r: bool) {
        self.0 == other.0
    }
}

impl<K> Eq for IndexedVecIndex<K> {

}

impl<K> PartialEqSpecImpl for IndexedVecIndex<K> {
    open spec fn obeys_eq_spec() -> bool {
        true
    }

    open spec fn eq_spec(&self, other: &Self) -> bool {
        self.0 == other.0
    }
}

impl<K> From<usize> for IndexedVecIndex<K> {
    fn from(id: usize) -> (r: Self) {
        IndexedVecIndex(id, PhantomData)
    }
}

impl<K> FromSpecImpl<usize> for IndexedVecIndex<K> {
    open spec fn obeys_from_spec() -> bool {
        true
    }

    open spec fn from_spec(id: usize) -> Self {
        IndexedVecIndex(id, PhantomData)
    }
}

impl<K> From<u32> for IndexedVecIndex<K> {
    fn from(id: u32) -> (r: Self) {
        IndexedVecIndex(id as usize, PhantomData)
    }
}

impl<K> FromSpecImpl<u32> for IndexedVecIndex<K> {
    open spec fn obeys_from_spec() -> bool {
        true
    }

    open spec fn from_spec(id: u32) -> Self {
        IndexedVecIndex(id as usize, PhantomData)
    }
}

impl<K> IndexedVecIndex<K> {
    /// The handle of position `i`.
    pub open spec fn at(i: int) -> Self {
        IndexedVecIndex(i as usize, PhantomData)
    }

    /// The handle that refers to nothing yet.
    pub open spec fn spec_unresolved() -> Self {
        IndexedVecIndex(usize::MAX, PhantomData)
    }

    /// The handle that refers to nothing yet.
    #[verifier::when_used_as_spec(spec_unresolved)]
    pub fn unresolved() -> (r: Self)
        ensures
            r == Self::spec_unresolved(),
    {
        IndexedVecIndex(usize::MAX, PhantomData)
    }

    pub open spec fn spec_is_unresolved(&self) -> bool {
        self.0 == usize::MAX
    }

    /// Whether this handle is the one that refers to nothing yet.
    #[verifier::when_used_as_spec(spec_is_unresolved)]
    pub fn is_unresolved(&self) -> (r: bool)
        ensures
            r == (self.0 == usize::MAX),
    {
        self.0 == usize::MAX
    }
}

/// A collection that is addressed by handles of its own type.
pub trait IndexedVector {
    type Index: Copy;
}

/// An append-only arena of `T`, addressed by handles tagged with `K`.
///
/// Entries are added at the end and never removed, so the handle of an entry
/// stays valid. An entry can be overwritten in place, and changed through a
/// mutable reference; neither changes a handle.
#[derive(Debug, PartialEq, Eq)]
pub struct IndexedVec<K, T> {
    items: Vec<T>,
    tag: PhantomData<K>,
}

impl<K, T> IndexedVector for IndexedVec<K, T> {
    type Index = IndexedVecIndex<K>;
}

impl<K, T> View for IndexedVec<K, T> {
    type V = Seq<T>;

    closed spec fn view(&self) -> Seq<T> {
        self.items@
    }
}

impl<K, T> From<Vec<T>> for IndexedVec<K, T> {
    fn from(value: Vec<T>) -> (r: Self) {
        IndexedVec { items: value, tag: PhantomData }
    }
}

impl<K, T> FromSpecImpl<Vec<T>> for IndexedVec<K, T> {
    open spec fn obeys_from_spec() -> bool {
        true
    }

    closed spec fn from_spec(value: Vec<T>) -> Self {
        IndexedVec { items: value, tag: PhantomData }
    }
}

impl<K, T> IndexedVec<K, T> {
    /// An arena without entries.
    pub fn new() -> (r: Self)
        ensures
            r@ == Seq::<T>::empty(),
    {
        IndexedVec { items: Vec::new(), tag: PhantomData }
    }

    /// The arena made of a vector holds the entries of the vector.
    pub proof fn lemma_from_holds(items: Vec<T>)
        ensures
            <Self as FromSpec<Vec<T>>>::from_spec(items)@ == items@,
    {
    }

    /// The handles of an arena fit the machine word that holds a handle.
    pub proof fn lemma_len_fits(&self)
        ensures
            self@.len() <= usize::MAX,
    {
        vstd::std_specs::vec::axiom_spec_len(&self.items);
    }

    pub open spec fn spec_len(&self) -> usize {
        self@.len() as usize
    }

    /// The number of entries, which is also the next handle to be given out.
    #[verifier::when_used_as_spec(spec_len)]
    pub fn len(&self) -> (r: usize)
        ensures
            r == self@.len(),
    {
        self.items.len()
    }

    pub open spec fn spec_valid_index(&self, idx: IndexedVecIndex<K>) -> bool {
        idx.0 < self@.len()
    }

    /// Whether `idx` is the handle of an entry of this arena.
    #[verifier::when_used_as_spec(spec_valid_index)]
    pub fn valid_index(&self, idx: IndexedVecIndex<K>) -> (r: bool)
        ensures
            r == (idx.0 < self@.len()),
    {
        idx.0 < self.items.len()
    }

    /// Appends `value` and returns its handle. Earlier entries and their
    /// handles are unchanged.
    pub fn push(&mut self, value: T) -> (id: IndexedVecIndex<K>)
        ensures
            final(self)@ == old(self)@.push(value),
            id.0 == old(self)@.len(),
            id == IndexedVecIndex::<K>::at(old(self)@.len() as int),
    {
        let id = IndexedVecIndex(self.items.len(), PhantomData);
        self.items.push(value);
        id
    }

    /// The entry behind `idx`.
    pub fn get(&self, idx: IndexedVecIndex<K>) -> (r: &T)
        requires
            idx.0 < self@.len(),
        ensures
            *r == self@[idx.0 as int],
    {
        &self.items[idx.0]
    }

    /// The entry behind `idx`, to be changed in place; no handle changes.
    pub fn get_mut(&mut self, idx: IndexedVecIndex<K>) -> (r: &mut T)
        requires
            idx.0 < old(self)@.len(),
        ensures
            *r == old(self)@[idx.0 as int],
            final(self)@ == old(self)@.update(idx.0 as int, *final(r)),
    {
        &mut self.items[idx.0]
    }

    /// Overwrites the entry behind `idx` in place; no handle changes.
    pub fn set(&mut self, idx: IndexedVecIndex<K>, value: T)
        requires
            idx.0 < old(self)@.len(),
        ensures
            final(self)@ == old(self)@.update(idx.0 as int, value),
    {
        self.items[idx.0] = value;
    }

    /// The first entry, if there is one.
    pub fn first(&self) -> (r: Option<&T>)
        ensures
            self@.len() == 0 ==> r is None,
            self@.len() > 0 ==> r == Some(&self@[0]),
    {
        if self.items.len() == 0 {
            None
        } else {
            Some(&self.items[0])
        }
    }

    /// The entries in the order of their handles.
    pub fn as_slice(&self) -> (r: &[T])
        ensures
            r@ == self@,
    {
        self.items.as_slice()
    }
}

} // verus!
