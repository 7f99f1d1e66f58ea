//! Read access to one arena at a time, and queries over the entities that
//! carry every kind a group of such accesses asks for.
use vstd::prelude::*;

use crate::bitset::{BitSet, MAX_KINDS};
use crate::entity::Entity;
use crate::world::{lemma_matches_subset, World, WorldView};

verus! {

/// Read access to the arena of one kind, for as long as the world is
/// borrowed.
pub struct Fetch<'w, C> {
    world: &'w World<C>,
    kind: usize,
}

impl<'w, C> Fetch<'w, C> {
    #[verifier::type_invariant]
    closed spec fn inv(&self) -> bool {
        self.kind < MAX_KINDS
    }

    /// The world this access reads.
    pub closed spec fn world_spec(&self) -> World<C> {
        *self.world
    }

    /// The kind this access reads.
    pub closed spec fn kind_spec(&self) -> nat {
        self.kind as nat
    }

    /// Read access to kind `k` of `world`.
    pub fn new(world: &'w World<C>, k: usize) -> (r: Fetch<'w, C>)
        requires
            world.wf(),
            k < world@.components.len(),
        ensures
            r.world_spec() == *world,
            r.kind_spec() == k,
    {
        proof {
            world.lemma_kinds_bounded();
        }
        Fetch { world, kind: k }
    }

    /// The kind this access reads.
    pub fn kind(&self) -> (r: usize)
        ensures
            r == self.kind_spec(),
    {
        self.kind
    }

    /// The value of this kind that the live entity `e` carries, if any.
    pub fn get(&self, e: Entity) -> (r: Option<&'w C>)
        requires
            self.world_spec().wf(),
        ensures
            r is Some <==> self.world_spec()@.has(self.kind_spec() as int, e),
            r is Some ==> *r->Some_0 == self.world_spec()@.components[self.kind_spec() as int][e.index],
    {
        let w: &'w World<C> = self.world;
        w.get(self.kind, e)
    }

    /// The value of this kind that `e` is known to carry.
    pub fn get_unchecked(&self, e: Entity) -> (r: &'w C)
        requires
            self.world_spec().wf(),
            self.world_spec()@.has(self.kind_spec() as int, e),
        ensures
            *r == self.world_spec()@.components[self.kind_spec() as int][e.index],
    {
        let w: &'w World<C> = self.world;
        w.get(self.kind, e).unwrap()
    }
}

/// Something that takes part in a query over a world: it names the kinds it
/// needs, and yields an item for each entity that carries all of them.
pub trait Join<C>: Sized {
    type Item;

    /// The participant reads the world `w`.
    spec fn reads(&self, w: World<C>) -> bool;

    /// The kinds the participant needs.
    spec fn kinds(&self) -> Set<nat>;

    /// `item` is what the participant yields for `e` in the world `w`.
    spec fn yields(&self, w: WorldView<C>, e: Entity, item: Self::Item) -> bool;

    /// The kinds the participant needs, as a signature.
    fn mask(&self) -> (r: BitSet)
        ensures
            r@ == self.kinds(),
    ;

    /// The item for an entity that carries every kind the participant needs.
    fn get_unchecked(&self, w: &World<C>, e: Entity) -> (r: Self::Item)
        requires
            w.wf(),
            self.reads(*w),
            w@.matches(self.kinds(), e),
        ensures
            self.yields(w@, e, r),
    ;
}

/// The bare stream of live entities: it needs no kind and yields the entity.
pub struct AllEntities;

impl<C> Join<C> for AllEntities {
    type Item = Entity;

    open spec fn reads(&self, w: World<C>) -> bool {
        true
    }

    open spec fn kinds(&self) -> Set<nat> {
        Set::empty()
    }

    open spec fn yields(&self, w: WorldView<C>, e: Entity, item: Entity) -> bool {
        item == e
    }

    fn mask(&self) -> (r: BitSet) {
        BitSet::new()
    }

    fn get_unchecked(&self, w: &World<C>, e: Entity) -> (r: Entity) {
        e
    }
}

impl<'w, C> Join<C> for Fetch<'w, C> {
    type Item = &'w C;

    open spec fn reads(&self, w: World<C>) -> bool {
        &&& self.world_spec() == w
        &&& self.kind_spec() < w@.components.len()
    }

    open spec fn kinds(&self) -> Set<nat> {
        Set::empty().insert(self.kind_spec())
    }

    open spec fn yields(&self, w: WorldView<C>, e: Entity, item: &'w C) -> bool {
        *item == w.components[self.kind_spec() as int][e.index]
    }

    fn mask(&self) -> (r: BitSet) {
        proof {
            use_type_invariant(self);
        }
        BitSet::from_index(self.kind)
    }

    fn get_unchecked(&self, w: &World<C>, e: Entity) -> (r: &'w C) {
        assert(self.kinds().contains(self.kind_spec()));
        Fetch::get_unchecked(self, e)
    }
}

impl<C, A: Join<C>, B: Join<C>> Join<C> for (A, B) {
    type Item = (A::Item, B::Item);

    open spec fn reads(&self, w: World<C>) -> bool {
        self.0.reads(w) && self.1.reads(w)
    }

    open spec fn kinds(&self) -> Set<nat> {
        self.0.kinds().union(self.1.kinds())
    }

    open spec fn yields(&self, w: WorldView<C>, e: Entity, item: (A::Item, B::Item)) -> bool {
        self.0.yields(w, e, item.0) && self.1.yields(w, e, item.1)
    }

    fn mask(&self) -> (r: BitSet) {
        self.0.mask().union_with(&self.1.mask())
    }

    fn get_unchecked(&self, w: &World<C>, e: Entity) -> (r: (A::Item, B::Item)) {
        proof {
            lemma_matches_subset(w@, self.kinds(), self.0.kinds(), e);
            lemma_matches_subset(w@, self.kinds(), self.1.kinds(), e);
        }
        (self.0.get_unchecked(w, e), self.1.get_unchecked(w, e))
    }
}

impl<C, A: Join<C>, B: Join<C>, D: Join<C>> Join<C> for (A, B, D) {
    type Item = (A::Item, B::Item, D::Item);

    open spec fn reads(&self, w: World<C>) -> bool {
        self.0.reads(w) && self.1.reads(w) && self.2.reads(w)
    }

    open spec fn kinds(&self) -> Set<nat> {
        self.0.kinds().union(self.1.kinds()).union(self.2.kinds())
    }

    open spec fn yields(&self, w: WorldView<C>, e: Entity, item: (A::Item, B::Item, D::Item)) -> bool {
        self.0.yields(w, e, item.0) && self.1.yields(w, e, item.1) && self.2.yields(w, e, item.2)
    }

    fn mask(&self) -> (r: BitSet) {
        self.0.mask().union_with(&self.1.mask()).union_with(&self.2.mask())
    }

    fn get_unchecked(&self, w: &World<C>, e: Entity) -> (r: (A::Item, B::Item, D::Item)) {
        proof {
            lemma_matches_subset(w@, self.kinds(), self.0.kinds(), e);
            lemma_matches_subset(w@, self.kinds(), self.1.kinds(), e);
            lemma_matches_subset(w@, self.kinds(), self.2.kinds(), e);
        }
        (self.0.get_unchecked(w, e), self.1.get_unchecked(w, e), self.2.get_unchecked(w, e))
    }
}

impl<C> World<C> {
    /// Read access to the arena of kind `k`.
    pub fn fetch(&self, k: usize) -> (r: Fetch<'_, C>)
        requires
            self.wf(),
            k < self@.components.len(),
        ensures
            r.world_spec() == *self,
            r.kind_spec() == k,
    {
        Fetch::new(self, k)
    }

    /// The entities that carry every kind `j` needs, each with the item `j`
    /// yields for it, in ascending slot order. The mask is computed once;
    /// each slot is then tested against it a word at a time.
    pub fn join<J: Join<C>>(&self, j: &J) -> (r: Vec<(Entity, J::Item)>)
        requires
            self.wf(),
            j.reads(*self),
        ensures
            forall|t: int|
                0 <= t < r@.len() ==> self@.matches(j.kinds(), (#[trigger] r@[t]).0) && j.yields(
                    self@,
                    r@[t].0,
                    r@[t].1,
                ),
            forall|s: int, t: int|
                0 <= s < t < r@.len() ==> (#[trigger] r@[s]).0.index < (#[trigger] r@[t]).0.index,
            forall|e: Entity|
                #[trigger] self@.matches(j.kinds(), e) ==> exists|t: int|
                    0 <= t < r@.len() && (#[trigger] r@[t]).0 == e,
    {
        let mask = j.mask();
        let n = self.num_slots();
        proof {
            self.lemma_valid();
        }
        let mut r: Vec<(Entity, J::Item)> = Vec::new();
        let mut i: usize = 0;
        while i < n
            invariant
                self.wf(),
                j.reads(*self),
                mask@ == j.kinds(),
                n == self@.entities.slots.len(),
                n <= u32::MAX,
                0 <= i <= n,
                forall|t: int|
                    0 <= t < r@.len() ==> self@.matches(j.kinds(), (#[trigger] r@[t]).0) && j.yields(
                        self@,
                        r@[t].0,
                        r@[t].1,
                    ) && r@[t].0.index < i,
                forall|s: int, t: int|
                    0 <= s < t < r@.len() ==> (#[trigger] r@[s]).0.index < (#[trigger] r@[t]).0.index,
                forall|e: Entity|
                    #[trigger] self@.matches(j.kinds(), e) && e.index < i ==> exists|t: int|
                        0 <= t < r@.len() && (#[trigger] r@[t]).0 == e,
            decreases n - i,
        {
            let ghost r0 = r@;
            match self.live_at(i as u32) {
                Some(e) => {
                    if self.matches(&mask, e) {
                        let item = j.get_unchecked(self, e);
                        r.push((e, item));
                        assert(r@[r0.len() as int] == (e, item));
                    }
                    assert forall|x: Entity|
                        #[trigger] self@.matches(j.kinds(), x) && x.index < i + 1 implies exists|t: int|
                            0 <= t < r@.len() && (#[trigger] r@[t]).0 == x by {
                        if x.index == i {
                            assert(x == e);
                            assert(r@[r0.len() as int].0 == x);
                        } else {
                            let t = choose|t: int| 0 <= t < r0.len() && (#[trigger] r0[t]).0 == x;
                            assert(r@[t] == r0[t]);
                        }
                    }
                },
                None => {
                    assert forall|x: Entity|
                        #[trigger] self@.matches(j.kinds(), x) && x.index < i + 1 implies exists|t: int|
                            0 <= t < r@.len() && (#[trigger] r@[t]).0 == x by {
                        assert(x.index != i);
                    }
                },
            }
            i += 1;
        }
        r
    }
}

} // verus!
