//! Generational entity handles and the directory that issues and recycles them.
use vstd::prelude::*;

verus! {

/// A handle to one simulated object: a slot index and the generation of the
/// slot at the time the handle was issued.
#[derive(Clone, Copy, Debug, PartialEq, Eq, Hash, Structural)]
pub struct Entity {
    pub index: u32,
    pub generation: u32,
}

impl Entity {
    /// The slot this handle addresses.
    pub fn index(&self) -> (r: u32)
        ensures
            r == self.index,
    {
        self.index
    }

    /// The generation this handle was issued with.
    pub fn generation(&self) -> (r: u32)
        ensures
            r == self.generation,
    {
        self.generation
    }
}

/// One record of the directory.
#[derive(Clone, Copy, Debug, PartialEq, Eq, Structural)]
pub struct Slot {
    pub generation: u32,
    pub alive: bool,
}

/// What a directory holds: its slot records and the indices waiting for
/// reuse, the last one first.
pub struct EntitiesView {
    pub slots: Seq<Slot>,
    pub free: Seq<u32>,
}

impl EntitiesView {
    /// `e` addresses a live slot with the slot's current generation.
    pub open spec fn is_alive(self, e: Entity) -> bool {
        &&& e.index < self.slots.len()
        &&& self.slots[e.index as int].alive
        &&& self.slots[e.index as int].generation == e.generation
    }

    /// `e` is a handle this directory may have issued: it is alive, or it
    /// belongs to an earlier generation of its slot.
    pub open spec fn is_issued(self, e: Entity) -> bool {
        &&& e.index < self.slots.len()
        &&& (e.generation < self.slots[e.index as int].generation || self.is_alive(e))
    }

    /// A new handle can be issued: a slot waits for reuse, or there is room
    /// for one more index.
    pub open spec fn has_room(self) -> bool {
        self.free.len() > 0 || self.slots.len() < u32::MAX
    }

    /// What every directory's view satisfies: slot indices fit a `u32`, waiting indices address dead
    /// slots, and live slots can still have their generation raised.
    pub open spec fn valid(self) -> bool {
        &&& self.slots.len() <= u32::MAX
        &&& forall|j: int|
            0 <= j < self.free.len() ==> (#[trigger] self.free[j]) < self.slots.len()
                && !self.slots[self.free[j] as int].alive
        &&& forall|s: int|
            0 <= s < self.slots.len() && (#[trigger] self.slots[s]).alive ==> self.slots[s].generation
                < u32::MAX
    }

    /// `post` and `e` are what `create` makes of `self`: the last waiting
    /// slot comes back alive with its generation, or a new slot is appended
    /// at generation zero.
    pub open spec fn creates(self, post: EntitiesView, e: Entity) -> bool {
        if self.free.len() > 0 {
            let i = self.free.last();
            &&& e.index == i
            &&& e.generation == self.slots[i as int].generation
            &&& post.slots == self.slots.update(i as int, Slot { generation: e.generation, alive: true })
            &&& post.free == self.free.drop_last()
        } else {
            &&& e.index == self.slots.len()
            &&& e.generation == 0
            &&& post.slots == self.slots.push(Slot { generation: 0, alive: true })
            &&& post.free == self.free
        }
    }

    /// `post` and `r` are what `destroy(e)` makes of `self`: a live handle's
    /// slot dies with its generation raised, and waits for reuse unless the
    /// generation has reached its maximum; any other handle changes nothing.
    pub open spec fn destroys(self, post: EntitiesView, e: Entity, r: bool) -> bool {
        &&& r == self.is_alive(e)
        &&& if r {
            let g = self.slots[e.index as int].generation;
            &&& post.slots == self.slots.update(
                e.index as int,
                Slot { generation: (g + 1) as u32, alive: false },
            )
            &&& post.free == if g + 1 < u32::MAX {
                self.free.push(e.index)
            } else {
                self.free
            }
        } else {
            post == self
        }
    }
}

/// Issues entity handles, recycles freed slots with a raised generation, and
/// tells live handles from stale ones.
pub struct Entities {
    slots: Vec<Slot>,
    free: Vec<u32>,
}

impl View for Entities {
    type V = EntitiesView;

    closed spec fn view(&self) -> EntitiesView {
        EntitiesView { slots: self.slots@, free: self.free@ }
    }
}

/// A new handle differs from every handle issued before it, also when its
/// slot is a reused one, and the earlier handles stay told apart.
pub proof fn lemma_created_is_fresh(pre: EntitiesView, post: EntitiesView, e: Entity, earlier: Entity)
    requires
        pre.valid(),
        pre.creates(post, e),
        pre.is_issued(earlier),
    ensures
        e != earlier,
        post.is_issued(earlier),
        post.is_issued(e),
{
    if pre.free.len() > 0 {
        assert(pre.free[pre.free.len() - 1] == pre.free.last());
    }
}

/// Handles that were issued stay told apart from live ones after a destroy.
pub proof fn lemma_destroy_keeps_issued(pre: EntitiesView, post: EntitiesView, x: Entity, r: bool, earlier: Entity)
    requires
        pre.valid(),
        pre.destroys(post, x, r),
        pre.is_issued(earlier),
    ensures
        post.is_issued(earlier),
{
}

/// Destroying a handle twice is harmless: the second call reports false and
/// changes nothing.
pub proof fn lemma_destroy_idempotent(
    pre: EntitiesView,
    mid: EntitiesView,
    post: EntitiesView,
    e: Entity,
    r1: bool,
    r2: bool,
)
    requires
        pre.destroys(mid, e, r1),
        mid.destroys(post, e, r2),
    ensures
        !r2,
        post == mid,
{
}

impl Entities {
    /// The view of a well-formed directory is valid.
    pub proof fn lemma_valid(&self)
        requires
            self.wf(),
        ensures
            self@.valid(),
    {
    }

    /// Live slots can still have their generation raised; the waiting
    /// indices are exactly the dead slots whose generation can still be
    /// raised, each listed once.
    pub closed spec fn wf(&self) -> bool {
        &&& self.slots@.len() <= u32::MAX
        &&& forall|s: int|
            0 <= s < self.slots@.len() && (#[trigger] self.slots@[s]).alive ==> self.slots@[s].generation
                < u32::MAX
        &&& forall|j: int|
            0 <= j < self.free@.len() ==> (#[trigger] self.free@[j]) < self.slots@.len()
                && !self.slots@[self.free@[j] as int].alive && self.slots@[self.free@[j] as int].generation
                < u32::MAX
        &&& forall|i: int, j: int|
            0 <= i < j < self.free@.len() ==> #[trigger] self.free@[i] != #[trigger] self.free@[j]
        &&& forall|s: int|
            0 <= s < self.slots@.len() && !(#[trigger] self.slots@[s]).alive
                && self.slots@[s].generation < u32::MAX ==> self.free@.contains(s as u32)
    }

    /// An empty directory.
    pub fn new() -> (r: Entities)
        ensures
            r.wf(),
            r@.slots.len() == 0,
            r@.free.len() == 0,
    {
        Entities { slots: Vec::new(), free: Vec::new() }
    }

    /// Number of slots ever allocated.
    pub fn len(&self) -> (r: usize)
        ensures
            r == self@.slots.len(),
    {
        self.slots.len()
    }

    /// Whether a new handle can be issued.
    pub fn has_room(&self) -> (r: bool)
        requires
            self.wf(),
        ensures
            r == self@.has_room(),
    {
        self.free.len() > 0 || self.slots.len() < u32::MAX as usize
    }

    /// Whether `e` addresses a live slot with its current generation.
    pub fn is_alive(&self, e: Entity) -> (r: bool)
        ensures
            r == self@.is_alive(e),
    {
        let i = e.index as usize;
        if i < self.slots.len() {
            let s = self.slots[i];
            s.alive && s.generation == e.generation
        } else {
            false
        }
    }

    /// Issues a handle, reusing the last freed slot when there is one.
    pub fn create(&mut self) -> (e: Entity)
        requires
            old(self).wf(),
            old(self)@.has_room(),
        ensures
            final(self).wf(),
            old(self)@.creates(final(self)@, e),
    {
        if self.free.len() > 0 {
            let i = self.free.pop().unwrap();
            let g = self.slots[i as usize].generation;
            self.slots.set(i as usize, Slot { generation: g, alive: true });
            let ghost pre = old(self).free@;
            assert forall|j: int| 0 <= j < self.free@.len() implies #[trigger] self.free@[j] != i by {
                assert(pre[j] == self.free@[j]);
                assert(pre[pre.len() - 1] == i);
            }
            assert forall|s: int|
                0 <= s < self.slots@.len() && !(#[trigger] self.slots@[s]).alive
                    && self.slots@[s].generation < u32::MAX implies self.free@.contains(s as u32) by {
                assert(s != i);
                assert(pre.contains(s as u32));
                let j = choose|j: int| 0 <= j < pre.len() && pre[j] == s as u32;
                assert(j != pre.len() - 1);
                assert(self.free@[j] == s as u32);
            }
            Entity { index: i, generation: g }
        } else {
            let i = self.slots.len() as u32;
            self.slots.push(Slot { generation: 0, alive: true });
            Entity { index: i, generation: 0 }
        }
    }

    /// Frees the slot of a live handle and reports whether it was live; a
    /// stale or unknown handle is left alone.
    pub fn destroy(&mut self, e: Entity) -> (r: bool)
        requires
            old(self).wf(),
        ensures
            final(self).wf(),
            old(self)@.destroys(final(self)@, e, r),
    {
        if !self.is_alive(e) {
            return false;
        }
        let i = e.index as usize;
        let g = self.slots[i].generation;
        let ghost pre = self.free@;
        assert(!pre.contains(e.index));
        self.slots.set(i, Slot { generation: g + 1, alive: false });
        if g + 1 < u32::MAX {
            self.free.push(e.index);
            assert(self.free@.last() == e.index);
            assert forall|s: int|
                0 <= s < self.slots@.len() && !(#[trigger] self.slots@[s]).alive
                    && self.slots@[s].generation < u32::MAX implies self.free@.contains(s as u32) by {
                if s != i {
                    let j = choose|j: int| 0 <= j < pre.len() && pre[j] == s as u32;
                    assert(self.free@[j] == s as u32);
                } else {
                    assert(self.free@[self.free@.len() - 1] == s as u32);
                }
            }
        }
        true
    }

    /// The live handle of slot `i`, if the slot is alive.
    pub fn live_at(&self, i: u32) -> (r: Option<Entity>)
        ensures
            r is Some <==> (i < self@.slots.len() && self@.slots[i as int].alive),
            r is Some ==> r->Some_0 == (Entity { index: i, generation: self@.slots[i as int].generation }),
    {
        let j = i as usize;
        if j < self.slots.len() && self.slots[j].alive {
            Some(Entity { index: i, generation: self.slots[j].generation })
        } else {
            None
        }
    }
}

} // verus!
