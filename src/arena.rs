//! Storage for the values of one component kind, keyed by entity slot index.
use std::collections::hash_map::Entry;
use std::collections::HashMap;
use vstd::prelude::*;

verus! {

broadcast use vstd::std_specs::hash::group_hash_axioms;

/// How the values of one component kind are laid out.
#[derive(Clone, Copy, Debug, PartialEq, Eq, Structural)]
pub enum Storage {
    /// A vector indexed by slot: suited to kinds most entities carry.
    Dense,
    /// A hash map keyed by slot: suited to rare kinds.
    Sparse,
}

/// The values of one component kind, by slot index. Both layouts offer the
/// same contract, stated over the map from slot index to value.
pub enum Arena<C> {
    Dense(Vec<Option<C>>),
    Sparse(HashMap<u32, C>),
}

/// The map held by a dense vector: each slot with a value.
pub open spec fn dense_map<C>(v: Seq<Option<C>>) -> Map<u32, C> {
    Map::new(|i: u32| (i as int) < v.len() && v[i as int] is Some, |i: u32| v[i as int]->Some_0)
}

impl<C> View for Arena<C> {
    type V = Map<u32, C>;

    open spec fn view(&self) -> Map<u32, C> {
        match self {
            Arena::Dense(v) => dense_map(v@),
            Arena::Sparse(m) => m@,
        }
    }
}

impl<C> Arena<C> {
    /// An empty arena with the given layout.
    pub fn new(storage: Storage) -> (r: Arena<C>)
        ensures
            r@ == Map::<u32, C>::empty(),
    {
        match storage {
            Storage::Dense => {
                let r = Arena::Dense(Vec::new());
                assert(r@ =~= Map::<u32, C>::empty());
                r
            },
            Storage::Sparse => Arena::Sparse(HashMap::new()),
        }
    }

    /// Whether a value is stored at `index`.
    pub fn contains(&self, index: u32) -> (r: bool)
        ensures
            r == self@.contains_key(index),
    {
        match self {
            Arena::Dense(v) => {
                let i = index as usize;
                i < v.len() && v[i].is_some()
            },
            Arena::Sparse(m) => m.contains_key(&index),
        }
    }

    /// The value stored at `index`, if any.
    pub fn get(&self, index: u32) -> (r: Option<&C>)
        ensures
            r is Some <==> self@.contains_key(index),
            r is Some ==> *r->Some_0 == self@[index],
    {
        match self {
            Arena::Dense(v) => {
                let i = index as usize;
                if i < v.len() {
                    v[i].as_ref()
                } else {
                    None
                }
            },
            Arena::Sparse(m) => m.get(&index),
        }
    }

    /// The value stored at `index`, which the caller knows to be there.
    pub fn get_unchecked(&self, index: u32) -> (r: &C)
        requires
            self@.contains_key(index),
        ensures
            *r == self@[index],
    {
        match self {
            Arena::Dense(v) => v[index as usize].as_ref().unwrap(),
            Arena::Sparse(m) => m.get(&index).unwrap(),
        }
    }

    /// Stores `value` at `index`, handing back the value it replaces.
    pub fn insert(&mut self, index: u32, value: C) -> (r: Option<C>)
        ensures
            final(self)@ == old(self)@.insert(index, value),
            r is Some <==> old(self)@.contains_key(index),
            r is Some ==> r->Some_0 == old(self)@[index],
    {
        match self {
            Arena::Dense(v) => {
                let i = index as usize;
                let ghost v0 = v@;
                while v.len() <= i
                    invariant
                        v@.len() >= v0.len(),
                        forall|j: int| 0 <= j < v0.len() ==> v@[j] == v0[j],
                        forall|j: int| v0.len() <= j < v@.len() ==> v@[j] is None,
                        i <= u32::MAX,
                    decreases i + 1 - v.len(),
                {
                    v.push(None);
                }
                assert(dense_map(v@) =~= dense_map(v0));
                v.push(Some(value));
                let r = v.swap_remove(i);
                assert(dense_map(v@) =~= dense_map(v0).insert(index, value));
                r
            },
            Arena::Sparse(m) => m.insert(index, value),
        }
    }

    /// Takes out the value stored at `index`, if any.
    pub fn remove(&mut self, index: u32) -> (r: Option<C>)
        ensures
            final(self)@ == old(self)@.remove(index),
            r is Some <==> old(self)@.contains_key(index),
            r is Some ==> r->Some_0 == old(self)@[index],
    {
        match self {
            Arena::Dense(v) => {
                let i = index as usize;
                if i < v.len() {
                    let ghost v0 = v@;
                    v.push(None);
                    let r = v.swap_remove(i);
                    assert(dense_map(v@) =~= dense_map(v0).remove(index));
                    r
                } else {
                    assert(self@ =~= old(self)@.remove(index));
                    None
                }
            },
            Arena::Sparse(m) => m.remove(&index),
        }
    }

    /// Write access to the value stored at `index`, if any. Whatever is
    /// written through it becomes the value at `index`; no other entry moves.
    pub fn get_mut(&mut self, index: u32) -> (r: Option<&mut C>)
        ensures
            r is Some <==> old(self)@.contains_key(index),
            r is Some ==> *r->Some_0 == old(self)@[index] && final(self)@ == old(self)@.insert(
                index,
                *final(r->Some_0),
            ),
            r is None ==> final(self)@ == old(self)@,
    {
        match self {
            Arena::Dense(v) => {
                let i = index as usize;
                if i < v.len() {
                    let slot = &mut v[i];
                    slot.as_mut()
                } else {
                    None
                }
            },
            Arena::Sparse(m) => match m.entry(index) {
                Entry::Occupied(o) => Some(o.into_mut()),
                Entry::Vacant(_) => None,
            },
        }
    }
}

} // verus!
