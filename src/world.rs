//! The world: one entity directory, one arena per registered component kind,
//! and the signature of every slot.
use vstd::prelude::*;

use crate::arena::{Arena, Storage};
use crate::bitset::{BitSet, MAX_KINDS};
use crate::entity::{Entities, EntitiesView, Entity};

verus! {

/// An operation named an entity that is not alive.
#[derive(Clone, Copy, Debug, PartialEq, Eq, Structural)]
pub struct NotAlive;

/// Every kind a signature can hold is registered already.
#[derive(Clone, Copy, Debug, PartialEq, Eq, Structural)]
pub struct CapacityExhausted;

/// What a world holds: its directory and, for each registered kind, the map
/// from slot index to value.
pub struct WorldView<C> {
    pub entities: EntitiesView,
    pub components: Seq<Map<u32, C>>,
}

impl<C> WorldView<C> {
    /// `e` is alive in the directory.
    pub open spec fn is_alive(self, e: Entity) -> bool {
        self.entities.is_alive(e)
    }

    /// `e` is alive and carries a value of kind `k`.
    pub open spec fn has(self, k: int, e: Entity) -> bool {
        &&& self.is_alive(e)
        &&& 0 <= k < self.components.len()
        &&& self.components[k].contains_key(e.index)
    }

    /// What every world's view satisfies: a valid directory, and values only
    /// for live slots.
    pub open spec fn valid(self) -> bool {
        &&& self.entities.valid()
        &&& forall|k: int, key: u32|
            0 <= k < self.components.len() && #[trigger] self.components[k].contains_key(key)
                ==> key < self.entities.slots.len() && self.entities.slots[key as int].alive
    }

    /// `e` is alive and carries a value of every kind in `mask`.
    pub open spec fn matches(self, mask: Set<nat>, e: Entity) -> bool {
        &&& self.is_alive(e)
        &&& forall|k: nat| #[trigger] mask.contains(k) ==> self.has(k as int, e)
    }

    /// `post` and `e` are what `create_entity` makes of `self`.
    pub open spec fn creates_entity(self, post: WorldView<C>, e: Entity) -> bool {
        &&& self.entities.creates(post.entities, e)
        &&& post.components == self.components
    }

    /// `post` and `r` are what `destroy_entity(e)` makes of `self`.
    pub open spec fn destroys_entity(self, post: WorldView<C>, e: Entity, r: bool) -> bool {
        &&& self.entities.destroys(post.entities, e, r)
        &&& r ==> post.components == self.without_slot(e.index)
        &&& !r ==> post == self
    }

    /// `post` and `r` are what `attach(k, e, v)` makes of `self`.
    pub open spec fn attaches(self, post: WorldView<C>, k: int, e: Entity, v: C, r: Result<(), NotAlive>) -> bool {
        if self.is_alive(e) {
            &&& r == Ok::<(), NotAlive>(())
            &&& post.entities == self.entities
            &&& post.components == self.components.update(k, self.components[k].insert(e.index, v))
        } else {
            &&& r == Err::<(), NotAlive>(NotAlive)
            &&& post == self
        }
    }

    /// `post` and `r` are what `detach(k, e)` makes of `self`.
    pub open spec fn detaches(self, post: WorldView<C>, k: int, e: Entity, r: Option<C>) -> bool {
        if self.has(k, e) {
            &&& r == Some(self.components[k][e.index])
            &&& post.entities == self.entities
            &&& post.components == self.components.update(k, self.components[k].remove(e.index))
        } else {
            &&& r is None
            &&& post == self
        }
    }

    /// The components after every value stored for slot `i` is dropped.
    pub open spec fn without_slot(self, i: u32) -> Seq<Map<u32, C>> {
        Seq::new(self.components.len(), |k: int| self.components[k].remove(i))
    }
}

/// Attaching a value and detaching it again hands the same value back, and
/// afterwards the entity no longer carries that kind; the other kinds and the
/// directory are as before the attach.
pub proof fn lemma_attach_detach_round_trip<C>(
    w0: WorldView<C>,
    w1: WorldView<C>,
    w2: WorldView<C>,
    k: int,
    e: Entity,
    v: C,
    r1: Result<(), NotAlive>,
    r2: Option<C>,
)
    requires
        w0.is_alive(e),
        0 <= k < w0.components.len(),
        w0.attaches(w1, k, e, v, r1),
        w1.detaches(w2, k, e, r2),
    ensures
        r1 is Ok,
        r2 == Some(v),
        !w2.has(k, e),
        w2.entities == w0.entities,
        w2.components == w0.components.update(k, w0.components[k].remove(e.index)),
{
    assert(w1.has(k, e));
    assert(w0.components[k].insert(e.index, v).remove(e.index) =~= w0.components[k].remove(e.index));
    assert(w2.components =~= w0.components.update(k, w0.components[k].remove(e.index)));
}

/// Destroying a live entity leaves no value of any kind at its slot, and an
/// entity created next, in a reused slot or a new one, starts with none.
pub proof fn lemma_destroy_leaves_nothing<C>(
    w0: WorldView<C>,
    w1: WorldView<C>,
    w2: WorldView<C>,
    e: Entity,
    e2: Entity,
)
    requires
        w0.valid(),
        w0.destroys_entity(w1, e, true),
        w1.creates_entity(w2, e2),
    ensures
        forall|k: int| 0 <= k < w1.components.len() ==> !(#[trigger] w1.components[k]).contains_key(e.index),
        forall|k: int| !w2.has(k, e2),
        forall|k: int| !w2.has(k, e),
{
    assert forall|k: int| 0 <= k < w1.components.len() implies !(#[trigger] w1.components[k]).contains_key(e.index) by {
        assert(w1.components[k] == w0.components[k].remove(e.index));
    }
    assert forall|k: int| !w2.has(k, e2) by {
        if 0 <= k < w2.components.len() && w2.components[k].contains_key(e2.index) {
            assert(w0.components[k].contains_key(e2.index));
            if w1.entities.free.len() > 0 {
                if w0.entities.free.len() == w1.entities.free.len() {
                    assert(w1.entities.free[w1.entities.free.len() - 1] == w0.entities.free[w0.entities.free.len() - 1]);
                } else {
                    assert(w1.entities.free[w1.entities.free.len() - 1] == e.index);
                }
            }
        }
    }
}

/// An entity that carries every kind of a set carries every kind of any
/// subset of it.
pub proof fn lemma_matches_subset<C>(w: WorldView<C>, big: Set<nat>, small: Set<nat>, e: Entity)
    requires
        small.subset_of(big),
        w.matches(big, e),
    ensures
        w.matches(small, e),
{
    assert forall|k: nat| #[trigger] small.contains(k) implies w.has(k as int, e) by {
        assert(big.contains(k));
    }
}

/// Owns the entity directory, one arena per registered component kind, and
/// the signature of each slot: bit `k` of slot `i` is set exactly when arena
/// `k` holds a value for `i`.
pub struct World<C> {
    entities: Entities,
    masks: Vec<BitSet>,
    arenas: Vec<Arena<C>>,
}

impl<C> View for World<C> {
    type V = WorldView<C>;

    closed spec fn view(&self) -> WorldView<C> {
        WorldView { entities: self.entities@, components: self.arenas@.map_values(|a: Arena<C>| a@) }
    }
}

impl<C> World<C> {
    /// The signature of slot `i`.
    pub closed spec fn signature(&self, i: int) -> Set<nat> {
        self.masks@[i]@
    }

    /// The directory is well formed, there is one signature per slot, and
    /// each signature bit agrees with its arena; arenas hold values for live
    /// slots only.
    pub closed spec fn wf(&self) -> bool {
        &&& self.entities.wf()
        &&& self.entities@.valid()
        &&& self.masks@.len() == self.entities@.slots.len()
        &&& self.arenas@.len() <= MAX_KINDS
        &&& forall|i: int, k: nat|
            0 <= i < self.masks@.len() ==> (#[trigger] self.masks@[i]@.contains(k) <==> (k
                < self.arenas@.len() && self.arenas@[k as int]@.contains_key(i as u32)))
        &&& forall|k: int, key: u32|
            0 <= k < self.arenas@.len() && #[trigger] self.arenas@[k]@.contains_key(key) ==> key
                < self.entities@.slots.len() && self.entities@.slots[key as int].alive
    }

    /// A world with no entity and no registered kind.
    pub fn new() -> (r: World<C>)
        ensures
            r.wf(),
            r@.entities.slots.len() == 0,
            r@.entities.free.len() == 0,
            r@.components.len() == 0,
    {
        World { entities: Entities::new(), masks: Vec::new(), arenas: Vec::new() }
    }

    /// Number of registered kinds.
    pub fn num_kinds(&self) -> (r: usize)
        ensures
            r == self@.components.len(),
    {
        self.arenas.len()
    }

    /// Registers a new component kind stored with the given layout, and
    /// returns its index, the bit it takes in every signature. Fails when
    /// every bit is taken.
    pub fn register(&mut self, storage: Storage) -> (r: Result<usize, CapacityExhausted>)
        requires
            old(self).wf(),
        ensures
            final(self).wf(),
            old(self)@.components.len() < MAX_KINDS ==> r == Ok::<usize, CapacityExhausted>(
                old(self)@.components.len() as usize,
            ) && final(self)@ == (WorldView {
                entities: old(self)@.entities,
                components: old(self)@.components.push(Map::empty()),
            }),
            old(self)@.components.len() >= MAX_KINDS ==> r == Err::<usize, CapacityExhausted>(
                CapacityExhausted,
            ) && final(self)@ == old(self)@,
    {
        if self.arenas.len() >= MAX_KINDS {
            return Err(CapacityExhausted);
        }
        let k = self.arenas.len();
        self.arenas.push(Arena::new(storage));
        assert forall|i: int, j: nat|
            0 <= i < self.masks@.len() implies (#[trigger] self.masks@[i]@.contains(j) <==> (j
            < self.arenas@.len() && self.arenas@[j as int]@.contains_key(i as u32))) by {
            if j < k {
                assert(self.arenas@[j as int] == old(self).arenas@[j as int]);
            }
            old(self).masks@[i].lemma_bounded();
        }
        assert forall|j: int, key: u32|
            0 <= j < self.arenas@.len() && #[trigger] self.arenas@[j]@.contains_key(key) implies key
            < self.entities@.slots.len() && self.entities@.slots[key as int].alive by {
            if j < k {
                assert(self.arenas@[j] == old(self).arenas@[j]);
            }
        }
        assert(self@.components =~= old(self)@.components.push(Map::empty()));
        Ok(k)
    }

    /// Whether `e` is alive.
    pub fn is_alive(&self, e: Entity) -> (r: bool)
        ensures
            r == self@.is_alive(e),
    {
        self.entities.is_alive(e)
    }

    /// Whether a new entity can be created.
    pub fn has_room(&self) -> (r: bool)
        requires
            self.wf(),
        ensures
            r == self@.entities.has_room(),
    {
        self.entities.has_room()
    }

    /// Creates an entity with an empty signature.
    pub fn create_entity(&mut self) -> (e: Entity)
        requires
            old(self).wf(),
            old(self)@.entities.has_room(),
        ensures
            final(self).wf(),
            old(self)@.creates_entity(final(self)@, e),
            final(self).signature(e.index as int) == Set::<nat>::empty(),
    {
        let ghost n = self.masks@.len();
        let e = self.entities.create();
        if (e.index as usize) == self.masks.len() {
            self.masks.push(BitSet::new());
        } else {
            assert(!old(self).entities@.slots[e.index as int].alive);
            assert forall|k: nat| !#[trigger] self.masks@[e.index as int]@.contains(k) by {
                if k < self.arenas@.len() && self.arenas@[k as int]@.contains_key(e.index) {
                    assert(old(self).arenas@[k as int]@.contains_key(e.index));
                }
            }
            assert(self.masks@[e.index as int]@ =~= Set::<nat>::empty());
        }
        assert forall|k: int, key: u32|
            0 <= k < self.arenas@.len() && #[trigger] self.arenas@[k]@.contains_key(key) implies key
            < self.entities@.slots.len() && self.entities@.slots[key as int].alive by {
            assert(old(self).arenas@[k]@.contains_key(key));
            assert(old(self).entities@.slots[key as int].alive);
        }
        proof {
            self.entities.lemma_valid();
        }
        e
    }

    /// Destroys a live entity: every value in its signature is dropped from
    /// its arena, the signature is cleared, and only then is the slot freed.
    /// Returns false, and changes nothing, for an entity that is not alive.
    pub fn destroy_entity(&mut self, e: Entity) -> (r: bool)
        requires
            old(self).wf(),
        ensures
            final(self).wf(),
            old(self)@.destroys_entity(final(self)@, e, r),
            r ==> final(self).signature(e.index as int) == Set::<nat>::empty(),
    {
        if !self.entities.is_alive(e) {
            return false;
        }
        let i = e.index;
        let mask = self.masks[i as usize];
        assert(e.index < self.masks@.len());
        let n = self.arenas.len();
        let mut k: usize = 0;
        while k < n
            invariant
                0 <= k <= n,
                n == self.arenas@.len(),
                n == old(self).arenas@.len(),
                self.entities == old(self).entities,
                self.masks == old(self).masks,
                old(self).wf(),
                mask == old(self).masks@[i as int],
                e.index < old(self).masks@.len(),
                forall|j: int|
                    0 <= j < n ==> #[trigger] self.arenas@[j]@ == if j < k {
                        old(self).arenas@[j]@.remove(i)
                    } else {
                        old(self).arenas@[j]@
                    },
            decreases n - k,
        {
            if mask.contains(k) {
                let _ = self.arenas[k].remove(i);
            } else {
                assert(old(self).arenas@[k as int]@.remove(i) =~= old(self).arenas@[k as int]@);
            }
            k += 1;
        }
        self.masks.set(i as usize, BitSet::new());
        let _ = self.entities.destroy(e);
        proof {
            self.entities.lemma_valid();
        }
        assert(self@.components =~= old(self)@.without_slot(i));
        assert forall|x: int, j: nat|
            0 <= x < self.masks@.len() implies (#[trigger] self.masks@[x]@.contains(j) <==> (j
            < self.arenas@.len() && self.arenas@[j as int]@.contains_key(x as u32))) by {
            if x != i as int && j < n {
                assert(self.arenas@[j as int]@ == old(self).arenas@[j as int]@.remove(i));
                assert(x as u32 != i);
            }
            old(self).masks@[x].lemma_bounded();
        }
        assert forall|j: int, key: u32|
            0 <= j < self.arenas@.len() && #[trigger] self.arenas@[j]@.contains_key(key) implies key
            < self.entities@.slots.len() && self.entities@.slots[key as int].alive by {
            assert(self.arenas@[j]@ == old(self).arenas@[j]@.remove(i));
            assert(old(self).arenas@[j]@.contains_key(key));
        }
        true
    }

    /// Whether the live entity `e` carries a value of kind `k`: a test of
    /// one signature bit.
    pub fn has(&self, k: usize, e: Entity) -> (r: bool)
        requires
            self.wf(),
        ensures
            r == self@.has(k as int, e),
            r == (self@.is_alive(e) && self.signature(e.index as int).contains(k as nat)),
    {
        self.entities.is_alive(e) && self.masks[e.index as usize].contains(k)
    }

    /// The value of kind `k` that the live entity `e` carries, if any.
    pub fn get(&self, k: usize, e: Entity) -> (r: Option<&C>)
        requires
            self.wf(),
        ensures
            r is Some <==> self@.has(k as int, e),
            r is Some ==> *r->Some_0 == self@.components[k as int][e.index],
    {
        if self.has(k, e) {
            Some(self.arenas[k].get_unchecked(e.index))
        } else {
            None
        }
    }

    /// Gives the live entity `e` the value `v` of kind `k`, replacing any it
    /// had. Fails for an entity that is not alive, changing nothing.
    pub fn attach(&mut self, k: usize, e: Entity, v: C) -> (r: Result<(), NotAlive>)
        requires
            old(self).wf(),
            k < old(self)@.components.len(),
        ensures
            final(self).wf(),
            old(self)@.attaches(final(self)@, k as int, e, v, r),
    {
        if !self.entities.is_alive(e) {
            return Err(NotAlive);
        }
        let i = e.index;
        let _ = self.arenas[k].insert(i, v);
        let mut m = self.masks[i as usize];
        m.insert(k);
        self.masks.set(i as usize, m);
        assert(self@.components =~= old(self)@.components.update(
            k as int,
            old(self)@.components[k as int].insert(e.index, v),
        ));
        assert forall|x: int, j: nat|
            0 <= x < self.masks@.len() implies (#[trigger] self.masks@[x]@.contains(j) <==> (j
            < self.arenas@.len() && self.arenas@[j as int]@.contains_key(x as u32))) by {
            if j != k && j < self.arenas@.len() {
                assert(self.arenas@[j as int] == old(self).arenas@[j as int]);
            }
            old(self).masks@[x].lemma_bounded();
        }
        assert forall|j: int, key: u32|
            0 <= j < self.arenas@.len() && #[trigger] self.arenas@[j]@.contains_key(key) implies key
            < self.entities@.slots.len() && self.entities@.slots[key as int].alive by {
            if j != k {
                assert(self.arenas@[j] == old(self).arenas@[j]);
            }
        }
        Ok(())
    }

    /// Takes the value of kind `k` from the live entity `e` and clears its
    /// bit; `None`, changing nothing, when there is no such value.
    pub fn detach(&mut self, k: usize, e: Entity) -> (r: Option<C>)
        requires
            old(self).wf(),
        ensures
            final(self).wf(),
            old(self)@.detaches(final(self)@, k as int, e, r),
    {
        if !self.has(k, e) {
            return None;
        }
        let i = e.index;
        let r = self.arenas[k].remove(i);
        let mut m = self.masks[i as usize];
        m.remove(k);
        self.masks.set(i as usize, m);
        assert(self@.components =~= old(self)@.components.update(
            k as int,
            old(self)@.components[k as int].remove(e.index),
        ));
        assert forall|x: int, j: nat|
            0 <= x < self.masks@.len() implies (#[trigger] self.masks@[x]@.contains(j) <==> (j
            < self.arenas@.len() && self.arenas@[j as int]@.contains_key(x as u32))) by {
            if j != k && j < self.arenas@.len() {
                assert(self.arenas@[j as int] == old(self).arenas@[j as int]);
            }
            old(self).masks@[x].lemma_bounded();
        }
        assert forall|j: int, key: u32|
            0 <= j < self.arenas@.len() && #[trigger] self.arenas@[j]@.contains_key(key) implies key
            < self.entities@.slots.len() && self.entities@.slots[key as int].alive by {
            if j != k {
                assert(self.arenas@[j] == old(self).arenas@[j]);
            } else {
                assert(old(self).arenas@[j]@.contains_key(key));
            }
        }
        r
    }

    /// The view of a well-formed world is valid.
    pub proof fn lemma_valid(&self)
        requires
            self.wf(),
        ensures
            self@.valid(),
    {
        assert forall|k: int, key: u32|
            0 <= k < self@.components.len() && #[trigger] self@.components[k].contains_key(key)
                implies key < self@.entities.slots.len() && self@.entities.slots[key as int].alive by {
            assert(self.arenas@[k]@.contains_key(key));
        }
    }

    /// At every point, bit `k` of a slot's signature is set exactly when the
    /// arena of kind `k` holds a value for that slot.
    pub proof fn lemma_signature_matches_arena(&self, k: nat, i: int)
        requires
            self.wf(),
            0 <= i < self@.entities.slots.len(),
        ensures
            self.signature(i).contains(k) <==> (k < self@.components.len()
                && self@.components[k as int].contains_key(i as u32)),
    {
    }

    /// Number of slots ever allocated.
    pub fn num_slots(&self) -> (r: usize)
        ensures
            r == self@.entities.slots.len(),
    {
        self.entities.len()
    }

    /// The live entity of slot `i`, if the slot is alive.
    pub fn live_at(&self, i: u32) -> (r: Option<Entity>)
        ensures
            r is Some <==> (i < self@.entities.slots.len() && self@.entities.slots[i as int].alive),
            r is Some ==> r->Some_0 == (Entity {
                index: i,
                generation: self@.entities.slots[i as int].generation,
            }),
    {
        self.entities.live_at(i)
    }

    /// Whether the signature of the live entity `e` holds every kind of
    /// `mask`.
    pub fn matches(&self, mask: &BitSet, e: Entity) -> (r: bool)
        requires
            self.wf(),
        ensures
            r == self@.matches(mask@, e),
    {
        if !self.entities.is_alive(e) {
            return false;
        }
        let sig = self.masks[e.index as usize];
        let r = sig.contains_all(mask);
        assert(r == self@.matches(mask@, e)) by {
            if r {
                assert forall|k: nat| #[trigger] mask@.contains(k) implies self@.has(k as int, e) by {
                    assert(sig@.contains(k));
                }
            } else {
                let k = choose|k: nat| mask@.contains(k) && !sig@.contains(k);
                assert(!self@.has(k as int, e));
            }
        }
        r
    }

    /// Registered kinds fit in a signature.
    pub proof fn lemma_kinds_bounded(&self)
        requires
            self.wf(),
        ensures
            self@.components.len() <= MAX_KINDS,
    {
    }

    /// Write access to the value of kind `k` that the live entity `e`
    /// carries, if any. What is written through it becomes that value; the
    /// signatures and every other value stay as they are.
    pub fn get_mut(&mut self, k: usize, e: Entity) -> (r: Option<&mut C>)
        requires
            old(self).wf(),
        ensures
            r is Some <==> old(self)@.has(k as int, e),
            r is Some ==> *r->Some_0 == old(self)@.components[k as int][e.index],
            r is Some ==> final(self)@.entities == old(self)@.entities,
            r is Some ==> final(self)@.components =~= old(self)@.components.update(
                k as int,
                old(self)@.components[k as int].insert(e.index, *final(r->Some_0)),
            ),
            r is None ==> final(self)@ == old(self)@,
            final(self).wf(),
    {
        if !self.has(k, e) {
            return None;
        }
        self.arenas[k].get_mut(e.index)
    }
}

} // verus!
