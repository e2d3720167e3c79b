//! The entity registry and the per-entity component tables.
//!
//! An [`Entity`] is a slot index with a generation. A slot is reused after
//! its entity was destroyed, under a higher generation, so that a handle to
//! a destroyed entity never reaches its successor. Destruction is requested
//! with [`Entities::delete`] and carried out by [`Entities::maintain`].

use vstd::prelude::*;

verus! {

/// Handle of an entity. It carries no data of its own.
#[derive(Clone, Copy, Debug, Hash, PartialEq, Eq, Structural)]
pub struct Entity {
    pub index: usize,
    pub generation: u32,
}

impl Entity {
    /// A table has room for the entity's slot. This holds of every entity
    /// that a registry handed out and of every entity found in a table.
    pub open spec fn storable(self) -> bool {
        self.index < usize::MAX
    }
}

/// The registry of entities.
pub struct Entities {
    generations: Vec<u32>,
    alive: Vec<bool>,
    doomed: Vec<bool>,
    free: Vec<usize>,
}

impl Entities {
    /// The registry's invariant: one generation and two flags per slot, only
    /// living entities are marked for destruction, and the free list names
    /// dead slots, none of them twice.
    pub closed spec fn wf(&self) -> bool {
        &&& self.alive@.len() == self.generations@.len()
        &&& self.doomed@.len() == self.generations@.len()
        &&& forall|i: int| 0 <= i < self.doomed@.len() && self.doomed@[i] ==> self.alive@[i]
        &&& forall|k: int|
            0 <= k < self.free@.len() ==> (#[trigger] self.free@[k]) < self.alive@.len() && !self.alive@[self.free@[k] as int]
        &&& forall|k: int, l: int| 0 <= k < l < self.free@.len() ==> self.free@[k] != self.free@[l]
    }

    /// Number of slots that were ever handed out.
    pub closed spec fn slot_count(&self) -> nat {
        self.generations@.len()
    }

    /// The entity is registered and was not destroyed.
    pub closed spec fn alive(&self, e: Entity) -> bool {
        &&& e.index < self.generations@.len()
        &&& self.alive@[e.index as int]
        &&& self.generations@[e.index as int] == e.generation
    }

    /// The entity is alive and will be destroyed by the next `maintain`.
    pub closed spec fn doomed(&self, e: Entity) -> bool {
        &&& self.alive(e)
        &&& self.doomed@[e.index as int]
    }

    /// Two living entities never share a slot.
    pub proof fn lemma_alive_unique(&self, a: Entity, b: Entity)
        requires
            self.alive(a),
            self.alive(b),
            a.index == b.index,
        ensures
            a == b,
    {
    }

    /// A living entity's index is below the slot count.
    pub proof fn lemma_alive_in_slots(&self, e: Entity)
        requires
            self.alive(e),
        ensures
            e.index < self.slot_count(),
            e.storable(),
    {
        assert(self.generations@.len() == self.generations.len());
    }

    /// A registry without entities.
    pub fn new() -> (entities: Self)
        ensures
            entities.wf(),
            entities.slot_count() == 0,
            forall|e: Entity| !entities.alive(e),
    {
        Entities { generations: Vec::new(), alive: Vec::new(), doomed: Vec::new(), free: Vec::new() }
    }

    /// Number of slots; every living entity's index is below it.
    pub fn slots(&self) -> (n: usize)
        ensures
            n == self.slot_count(),
    {
        self.generations.len()
    }

    pub fn is_alive(&self, e: Entity) -> (b: bool)
        requires
            self.wf(),
        ensures
            b == self.alive(e),
    {
        e.index < self.generations.len() && self.alive[e.index] && self.generations[e.index]
            == e.generation
    }

    /// The living entity in slot `i`, if there is one.
    pub fn entity_at(&self, i: usize) -> (e: Option<Entity>)
        requires
            self.wf(),
        ensures
            e is Some ==> e.unwrap().index == i && self.alive(e.unwrap()),
            e is None ==> forall|x: Entity| x.index == i ==> !self.alive(x),
    {
        if i < self.generations.len() && self.alive[i] {
            Some(Entity { index: i, generation: self.generations[i] })
        } else {
            None
        }
    }

    /// Registers a new entity. A free slot is reused where there is one.
    pub fn create(&mut self) -> (e: Entity)
        requires
            old(self).wf(),
        ensures
            final(self).wf(),
            !old(self).alive(e),
            final(self).alive(e),
            !final(self).doomed(e),
            forall|x: Entity| x != e ==> final(self).alive(x) == old(self).alive(x),
            forall|x: Entity| x != e ==> final(self).doomed(x) == old(self).doomed(x),
            final(self).slot_count() >= old(self).slot_count(),
    {
        match self.free.pop() {
            Some(index) => {
                let ghost before = *self;
                assert(forall|k: int| 0 <= k < self.free@.len() ==> self.free@[k] == old(self).free@[k]);
                self.alive[index] = true;
                let e = Entity { index, generation: self.generations[index] };
                assert forall|k: int| 0 <= k < self.free@.len() implies (#[trigger] self.free@[k])
                    < self.alive@.len() && !self.alive@[self.free@[k] as int] by {
                    assert(old(self).free@[k] != old(self).free@[old(self).free@.len() - 1]);
                }
                e
            },
            None => {
                let index: usize = self.generations.len();
                self.generations.push(0);
                self.alive.push(true);
                self.doomed.push(false);
                Entity { index, generation: 0 }
            },
        }
    }

    /// Marks a living entity for destruction. Returns whether the entity
    /// was alive; a dead handle changes nothing.
    pub fn delete(&mut self, e: Entity) -> (was_alive: bool)
        requires
            old(self).wf(),
        ensures
            final(self).wf(),
            was_alive == old(self).alive(e),
            final(self).slot_count() == old(self).slot_count(),
            forall|x: Entity| final(self).alive(x) == old(self).alive(x),
            forall|x: Entity| final(self).doomed(x) == (old(self).doomed(x) || (x == e && was_alive)),
    {
        if self.is_alive(e) {
            self.doomed[e.index] = true;
            true
        } else {
            false
        }
    }

    /// Destroys every entity marked for destruction and returns them by
    /// increasing index. Their slots become free for reuse.
    pub fn maintain(&mut self) -> (destroyed: Vec<Entity>)
        requires
            old(self).wf(),
        ensures
            final(self).wf(),
            final(self).slot_count() == old(self).slot_count(),
            forall|x: Entity| final(self).alive(x) == (old(self).alive(x) && !old(self).doomed(x)),
            forall|x: Entity| !final(self).doomed(x),
            forall|x: Entity| destroyed@.contains(x) <==> old(self).doomed(x),
            forall|k: int, l: int| 0 <= k < l < destroyed@.len() ==> destroyed@[k].index < destroyed@[l].index,
    {
        let mut destroyed: Vec<Entity> = Vec::new();
        let n: usize = self.generations.len();
        let mut i: usize = 0;
        while i < n
            invariant
                self.wf(),
                n == self.generations@.len(),
                n == old(self).generations@.len(),
                old(self).wf(),
                0 <= i <= n,
                forall|j: int| i <= j < n ==> self.alive@[j] == old(self).alive@[j],
                forall|j: int| i <= j < n ==> self.doomed@[j] == old(self).doomed@[j],
                forall|j: int| i <= j < n ==> self.generations@[j] == old(self).generations@[j],
                forall|j: int| 0 <= j < i ==> !self.doomed@[j],
                forall|j: int| 0 <= j < i ==> self.alive@[j] == (old(self).alive@[j] && !old(self).doomed@[j]),
                forall|j: int|
                    0 <= j < i && self.alive@[j] ==> self.generations@[j] == old(self).generations@[j],
                forall|x: Entity| destroyed@.contains(x) <==> old(self).doomed(x) && x.index < i,
                forall|k: int| 0 <= k < destroyed@.len() ==> (#[trigger] destroyed@[k]).index < i,
                forall|k: int, l: int|
                    0 <= k < l < destroyed@.len() ==> destroyed@[k].index < destroyed@[l].index,
            decreases n - i,
        {
            if self.doomed[i] {
                let gone = Entity { index: i, generation: self.generations[i] };
                let ghost before = destroyed@;
                destroyed.push(gone);
                self.doomed[i] = false;
                self.alive[i] = false;
                if self.generations[i] < u32::MAX {
                    self.generations[i] = self.generations[i] + 1;
                    self.free.push(i);
                }
                assert forall|x: Entity| destroyed@.contains(x) <==> old(self).doomed(x) && x.index < i + 1 by {
                    if destroyed@.contains(x) {
                        let k = choose|k: int| 0 <= k < destroyed@.len() && destroyed@[k] == x;
                        if k < before.len() {
                            assert(before[k] == x);
                            assert(before.contains(x));
                        }
                    }
                    if old(self).doomed(x) && x.index < i + 1 {
                        if x.index < i {
                            assert(before.contains(x));
                            let k = choose|k: int| 0 <= k < before.len() && before[k] == x;
                            assert(destroyed@[k] == x);
                        } else {
                            assert(destroyed@[destroyed@.len() - 1] == x);
                        }
                    }
                }
            }
            i = i + 1;
        }
        destroyed
    }
}

/// What is stored for an entity in a table after `value` was stored for
/// `e`: `e` has `value`, every other entity of `e`'s slot has nothing, and
/// the other slots are unchanged.
pub open spec fn put<T>(table: Map<Entity, T>, e: Entity, value: T) -> Map<Entity, T> {
    table.remove_keys(Set::new(|k: Entity| k.index == e.index)).insert(e, value)
}

/// The table without what it held for any entity of the slot of `e`.
pub open spec fn vacated<T>(table: Map<Entity, T>, e: Entity) -> Map<Entity, T> {
    table.remove_keys(Set::new(|k: Entity| k.index == e.index))
}

/// The entities with a value in a table after one was stored for `e`.
pub open spec fn put_keys<T>(table: Map<Entity, T>, e: Entity) -> Set<Entity> {
    Set::new(|k: Entity| k == e || (k.index != e.index && table.contains_key(k)))
}

/// `put` reaches the keys that `put_keys` names.
pub proof fn lemma_put_keys<T>(table: Map<Entity, T>, e: Entity, value: T)
    ensures
        put(table, e, value).dom() == put_keys(table, e),
{
    assert(put(table, e, value).dom() =~= put_keys(table, e));
}

/// Storing a value for an entity that has one replaces it and touches
/// nothing else.
pub proof fn lemma_put_existing<T>(table: &Storage<T>, e: Entity, value: T)
    requires
        table@.contains_key(e),
    ensures
        put(table@, e, value) == table@.insert(e, value),
{
    assert(put(table@, e, value) =~= table@.insert(e, value));
}

/// A component table: at most one component of type `T` per entity.
pub struct Storage<T> {
    slots: Vec<Option<(Entity, T)>>,
}

impl<T> Storage<T> {
    /// The entity of slot `i` and its component, if the slot is filled.
    pub closed spec fn slot(&self, i: int) -> Option<(Entity, T)> {
        if 0 <= i < self.slots@.len() && self.slots@[i] is Some && self.slots@[i].unwrap().0.index == i {
            self.slots@[i]
        } else {
            None
        }
    }

    /// One more than the index of the last slot that may be filled.
    pub closed spec fn slot_count(&self) -> nat {
        self.slots@.len()
    }

    /// The table as a map from entities to components.
    pub open spec fn view(&self) -> Map<Entity, T> {
        Map::new(
            |e: Entity| self.slot(e.index as int) is Some && self.slot(e.index as int).unwrap().0 == e,
            |e: Entity| self.slot(e.index as int).unwrap().1,
        )
    }

    /// A filled slot holds an entity of the slot's own index, and slots
    /// from `slot_count` on are empty.
    pub proof fn lemma_slot(&self, i: int)
        ensures
            self.slot(i) is Some ==> 0 <= i < self.slot_count() && self.slot(i).unwrap().0.index == i
                && self@.contains_key(self.slot(i).unwrap().0) && self@[self.slot(i).unwrap().0]
                == self.slot(i).unwrap().1,
    {
    }

    /// Slots are counted in `usize`: a filled slot's index is below the
    /// slot count, which is at most `usize::MAX`.
    pub proof fn lemma_bounded(&self, i: int)
        ensures
            self.slot(i) is Some ==> i < usize::MAX,
            self.slot_count() <= usize::MAX,
    {
        assert(self.slots@.len() == self.slots.len());
    }

    /// An entity with a component in the table is storable.
    pub proof fn lemma_key_storable(&self, e: Entity)
        requires
            self@.contains_key(e),
        ensures
            e.storable(),
            e.index < self.slot_count(),
            self.slot(e.index as int) == Some((e, self@[e])),
    {
        assert(self.slots@.len() == self.slots.len());
    }

    /// An empty table.
    pub fn new() -> (table: Self)
        ensures
            table@ == Map::<Entity, T>::empty(),
            forall|i: int| table.slot(i) is None,
    {
        let table = Storage { slots: Vec::new() };
        assert(table@ =~= Map::<Entity, T>::empty());
        table
    }

    /// Number of slots to walk in order to meet every entry.
    pub fn slots(&self) -> (n: usize)
        ensures
            n == self.slot_count(),
    {
        self.slots.len()
    }

    /// The entry of slot `i`, if the slot is filled.
    pub fn entry(&self, i: usize) -> (r: Option<(Entity, &T)>)
        ensures
            r is Some <==> self.slot(i as int) is Some,
            r is Some ==> r.unwrap().0 == self.slot(i as int).unwrap().0 && *r.unwrap().1 == self.slot(
                i as int,
            ).unwrap().1,
    {
        if i < self.slots.len() {
            match &self.slots[i] {
                Some((e, value)) => {
                    if e.index == i {
                        Some((*e, value))
                    } else {
                        None
                    }
                },
                None => None,
            }
        } else {
            None
        }
    }

    /// The component of `e`, if it has one.
    pub fn get(&self, e: Entity) -> (r: Option<&T>)
        ensures
            r is Some <==> self@.contains_key(e),
            r is Some ==> *r.unwrap() == self@[e],
    {
        match self.entry(e.index) {
            Some((owner, value)) => {
                if owner == e {
                    Some(value)
                } else {
                    None
                }
            },
            None => None,
        }
    }

    pub fn contains(&self, e: Entity) -> (b: bool)
        ensures
            b == self@.contains_key(e),
    {
        self.get(e).is_some()
    }

    /// Whether no entity has a component in this table.
    pub fn is_empty(&self) -> (b: bool)
        ensures
            b <==> self@ == Map::<Entity, T>::empty(),
            b <==> forall|i: int| self.slot(i) is None,
    {
        let mut i: usize = 0;
        while i < self.slots.len()
            invariant
                0 <= i <= self.slots@.len(),
                forall|j: int| 0 <= j < i ==> self.slot(j) is None,
            decreases self.slots@.len() - i,
        {
            match self.entry(i) {
                Some((e, _)) => {
                    assert(self@.contains_key(e));
                    return false;
                },
                None => {},
            }
            i = i + 1;
        }
        assert(self@ =~= Map::<Entity, T>::empty());
        true
    }

    /// Stores `value` for `e`, in place of whatever `e`'s slot held, and
    /// returns the component that `e` had before.
    pub fn insert(&mut self, e: Entity, value: T) -> (previous: Option<T>)
        requires
            e.storable(),
        ensures
            forall|i: int| final(self).slot(i) == if i == e.index { Some((e, value)) } else { old(self).slot(i) },
            final(self)@ == put(old(self)@, e, value),
            final(self).slot_count() == if e.index < old(self).slot_count() {
                old(self).slot_count()
            } else {
                (e.index + 1) as nat
            },
            previous is Some <==> old(self)@.contains_key(e),
            previous is Some ==> previous.unwrap() == old(self)@[e],
    {
        while self.slots.len() <= e.index
            invariant
                forall|i: int| self.slot(i) == old(self).slot(i),
                e.index < usize::MAX,
                self.slots@.len() == old(self).slots@.len() || (old(self).slots@.len() <= e.index
                    && self.slots@.len() <= e.index + 1),
            decreases e.index + 1 - self.slots@.len(),
        {
            self.slots.push(None);
        }
        let mut swapped: Option<(Entity, T)> = Some((e, value));
        core::mem::swap(&mut self.slots[e.index], &mut swapped);
        assert(final(self)@ =~= put(old(self)@, e, value));
        match swapped {
            Some((owner, previous)) => {
                if owner == e {
                    Some(previous)
                } else {
                    None
                }
            },
            None => None,
        }
    }

    /// Takes the component of `e` out of the table.
    pub fn remove(&mut self, e: Entity) -> (removed: Option<T>)
        ensures
            forall|i: int|
                final(self).slot(i) == if i == e.index && old(self)@.contains_key(e) {
                    None
                } else {
                    old(self).slot(i)
                },
            final(self)@ == old(self)@.remove(e),
            removed is Some <==> old(self)@.contains_key(e),
            removed is Some ==> removed.unwrap() == old(self)@[e],
            final(self).slot_count() == old(self).slot_count(),
    {
        if self.contains(e) {
            let mut swapped: Option<(Entity, T)> = None;
            core::mem::swap(&mut self.slots[e.index], &mut swapped);
            assert(final(self)@ =~= old(self)@.remove(e));
            match swapped {
                Some((_, value)) => Some(value),
                None => None,
            }
        } else {
            assert(final(self)@ =~= old(self)@.remove(e));
            None
        }
    }

    /// Empties the slot of `e`, whichever entity's component it holds.
    pub fn vacate(&mut self, e: Entity)
        ensures
            forall|i: int| final(self).slot(i) == if i == e.index { None } else { old(self).slot(i) },
            final(self)@ == vacated(old(self)@, e),
            final(self).slot_count() == old(self).slot_count(),
    {
        if e.index < self.slots.len() {
            self.slots[e.index] = None;
        }
        assert(final(self)@ =~= vacated(old(self)@, e));
    }

    /// Removes every component.
    pub fn clear(&mut self)
        ensures
            final(self)@ == Map::<Entity, T>::empty(),
            forall|i: int| final(self).slot(i) is None,
    {
        self.slots.clear();
        assert(final(self)@ =~= Map::<Entity, T>::empty());
    }

    /// Removes the components of the given entities.
    pub fn remove_all(&mut self, gone: &Vec<Entity>)
        ensures
            forall|i: int|
                final(self).slot(i) == if old(self).slot(i) is Some && gone@.contains(old(self).slot(i).unwrap().0) {
                    None
                } else {
                    old(self).slot(i)
                },
            final(self)@ == old(self)@.remove_keys(gone@.to_set()),
    {
        let mut k: usize = 0;
        while k < gone.len()
            invariant
                0 <= k <= gone@.len(),
                forall|i: int|
                    self.slot(i) == if old(self).slot(i) is Some && gone@.subrange(0, k as int).contains(
                        old(self).slot(i).unwrap().0,
                    ) {
                        None
                    } else {
                        old(self).slot(i)
                    },
            decreases gone@.len() - k,
        {
            let ghost before = *self;
            let ghost prefix = gone@.subrange(0, k as int);
            let ghost longer = gone@.subrange(0, k as int + 1);
            let victim = gone[k];
            let _ = self.remove(victim);
            assert forall|i: int|
                self.slot(i) == if old(self).slot(i) is Some && longer.contains(old(self).slot(i).unwrap().0) {
                    None
                } else {
                    old(self).slot(i)
                } by {
                before.lemma_slot(i);
                old(self).lemma_slot(i);
                if old(self).slot(i) is Some {
                    let owner = old(self).slot(i).unwrap().0;
                    if longer.contains(owner) {
                        let w = choose|w: int| 0 <= w < longer.len() && longer[w] == owner;
                        if w < k {
                            assert(prefix[w] == owner);
                        }
                    }
                    if prefix.contains(owner) {
                        let w = choose|w: int| 0 <= w < prefix.len() && prefix[w] == owner;
                        assert(longer[w] == owner);
                    }
                    if owner == victim {
                        assert(longer[k as int] == owner);
                    }
                }
            }
            k = k + 1;
        }
        assert(gone@.subrange(0, gone@.len() as int) =~= gone@);
        assert(final(self)@ =~= old(self)@.remove_keys(gone@.to_set()));
    }
}

} // verus!
