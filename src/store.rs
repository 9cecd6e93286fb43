use std::collections::HashMap;
use vstd::prelude::*;

verus! {

/// Identifier of an entity; handed out by an allocator outside the store.
pub type EntityID = u32;

/// Hands out entity ids in increasing order, so that no id is handed out twice.
pub struct EntityAllocator {
    next: u64,
}

impl EntityAllocator {
    /// The id the next allocation hands out (past `u32::MAX` once all are used).
    pub closed spec fn next_id(&self) -> nat {
        self.next as nat
    }

    pub open spec fn wf(&self) -> bool {
        self.next_id() <= u32::MAX + 1
    }

    pub fn new() -> (r: Self)
        ensures
            r.wf(),
            r.next_id() == 0,
    {
        EntityAllocator { next: 0 }
    }

    /// A fresh id, greater than every id handed out before; `None` once every
    /// id has been handed out.
    pub fn allocate(&mut self) -> (r: Option<EntityID>)
        requires
            old(self).wf(),
        ensures
            final(self).wf(),
            old(self).next_id() <= u32::MAX ==> r == Some(old(self).next_id() as EntityID)
                && final(self).next_id() == old(self).next_id() + 1,
            old(self).next_id() > u32::MAX ==> r.is_none() && final(self).next_id()
                == old(self).next_id(),
    {
        if self.next <= u32::MAX as u64 {
            let id = self.next as EntityID;
            self.next = self.next + 1;
            Some(id)
        } else {
            None
        }
    }
}

/// One stored value together with the entity it belongs to.
pub struct Component<T> {
    entity_id: EntityID,
    inner: T,
}

impl<T> Component<T> {
    pub closed spec fn id(&self) -> EntityID {
        self.entity_id
    }

    pub closed spec fn value(&self) -> T {
        self.inner
    }

    pub fn new(entity_id: EntityID, inner: T) -> (r: Self)
        ensures
            r.id() == entity_id,
            r.value() == inner,
    {
        Component { entity_id, inner }
    }

    pub fn entity_id(&self) -> (r: EntityID)
        ensures
            r == self.id(),
    {
        self.entity_id
    }

    pub fn inner(&self) -> (r: &T)
        ensures
            *r == self.value(),
    {
        &self.inner
    }

    pub fn inner_mut(&mut self) -> (r: &mut T)
        ensures
            *r == old(self).value(),
            final(self).id() == old(self).id(),
            final(self).value() == *final(r),
    {
        &mut self.inner
    }
}

/// Why a store refused a `push`.
#[derive(Debug, Clone, Copy, PartialEq, Eq, Structural)]
pub enum StoreError {
    /// The entity already owns a value in this store.
    DuplicateEntity(EntityID),
}

/// The ids of a sequence of records, in order.
pub open spec fn ids_of<T>(s: Seq<(EntityID, T)>) -> Seq<EntityID> {
    s.map_values(|e: (EntityID, T)| e.0)
}

/// No id appears twice in the sequence of records.
pub open spec fn unique_ids<T>(s: Seq<(EntityID, T)>) -> bool {
    forall|i: int, j: int|
        0 <= i < s.len() && 0 <= j < s.len() && i != j ==> #[trigger] s[i].0 != #[trigger] s[j].0
}

/// The records of a component vector as (id, value) pairs.
pub closed spec fn records<T>(v: Seq<Component<T>>) -> Seq<(EntityID, T)> {
    v.map_values(|c: Component<T>| (c.id(), c.value()))
}

/// Replacing one record by another with the same id keeps the ids unique.
pub broadcast proof fn lemma_unique_ids_update<T>(v: Seq<Component<T>>, i: int, c: Component<T>)
    requires
        unique_ids(records(v)),
        0 <= i < v.len(),
        c.id() == v[i].id(),
    ensures
        #[trigger] unique_ids(records(v.update(i, c))),
{
    let s = records(v);
    let u = records(v.update(i, c));
    assert forall|a: int, b: int|
        0 <= a < u.len() && 0 <= b < u.len() && a != b implies #[trigger] u[a].0 != #[trigger] u[b].0 by {
        assert(u[a].0 == s[a].0);
        assert(u[b].0 == s[b].0);
    }
}

/// All values of one component type, indexed by entity id (a sparse set).
///
/// `vec` holds the records densely in insertion order; `map` sends each id to
/// the position of its record.
pub struct ComponentContainer<T> {
    map: HashMap<EntityID, usize>,
    vec: Vec<Component<T>>,
}

impl<T> View for ComponentContainer<T> {
    type V = Seq<(EntityID, T)>;

    /// The records in insertion order, as (id, value) pairs.
    closed spec fn view(&self) -> Seq<(EntityID, T)> {
        records(self.vec@)
    }
}

impl<T> Default for ComponentContainer<T> {
    fn default() -> (r: Self)
        ensures
            r.wf(),
            r@ == Seq::<(EntityID, T)>::empty(),
    {
        ComponentContainer::new()
    }
}

impl<T> ComponentContainer<T> {
    /// The index map covers exactly the stored ids, each at its record's position.
    pub closed spec fn index_agrees(&self) -> bool {
        &&& forall|id: EntityID| #[trigger]
            self.map@.contains_key(id) ==> {
                let i = self.map@[id] as int;
                0 <= i < self.vec@.len() && self.vec@[i].id() == id
            }
        &&& forall|i: int| 0 <= i < self.vec@.len() ==> #[trigger]
            self.map@.contains_key(self.vec@[i].id())
    }

    /// Well-formedness: ids are unique and the index map agrees with the records.
    pub open spec fn wf(&self) -> bool {
        &&& unique_ids(self@)
        &&& self.index_agrees()
    }

    /// The entity has a value in this store.
    pub open spec fn has(&self, id: EntityID) -> bool {
        exists|i: int| 0 <= i < self@.len() && #[trigger] self@[i].0 == id
    }

    /// The position of the entity's record (meaningful when `has(id)`).
    pub open spec fn index_of(&self, id: EntityID) -> int {
        choose|i: int| 0 <= i < self@.len() && #[trigger] self@[i].0 == id
    }

    /// The entity's value, if it has one.
    pub open spec fn lookup(&self, id: EntityID) -> Option<T> {
        if self.has(id) {
            Some(self@[self.index_of(id)].1)
        } else {
            None
        }
    }

    pub fn new() -> (r: Self)
        ensures
            r.wf(),
            r@ == Seq::<(EntityID, T)>::empty(),
    {
        let r = ComponentContainer { map: HashMap::new(), vec: Vec::new() };
        assert(r@ =~= Seq::<(EntityID, T)>::empty());
        r
    }

    /// Number of stored records.
    pub fn len(&self) -> (r: usize)
        ensures
            r == self@.len(),
    {
        self.vec.len()
    }

    /// Appends a value for an entity that has none yet; an entity that has
    /// one is refused and the store is left as it was.
    pub fn push(&mut self, entity_id: EntityID, item: T) -> (r: Result<(), StoreError>)
        requires
            old(self).wf(),
        ensures
            final(self).wf(),
            old(self).has(entity_id) ==> r == Err::<(), StoreError>(
                StoreError::DuplicateEntity(entity_id),
            ) && final(self)@ == old(self)@,
            !old(self).has(entity_id) ==> r == Ok::<(), StoreError>(()) && final(self)@ == old(
                self,
            )@.push((entity_id, item)),
    {
        broadcast use vstd::std_specs::hash::group_hash_axioms;

        if self.position(entity_id).is_some() {
            return Err(StoreError::DuplicateEntity(entity_id));
        }
        let ghost old_vec = self.vec@;
        let index = self.vec.len();
        self.vec.push(Component::new(entity_id, item));
        self.map.insert(entity_id, index);
        assert(self@ =~= old(self)@.push((entity_id, item)));
        assert forall|i: int| 0 <= i < self.vec@.len() implies #[trigger] self.map@.contains_key(
            self.vec@[i].id(),
        ) by {
            if i < index {
                assert(self.vec@[i] == old_vec[i]);
            }
        }
        Ok(())
    }

    /// Reads the value at a position of the insertion order.
    pub fn entry_at(&self, i: usize) -> (r: (EntityID, &T))
        requires
            i < self@.len(),
        ensures
            r.0 == self@[i as int].0,
            *r.1 == self@[i as int].1,
    {
        let c = &self.vec[i];
        (c.entity_id(), c.inner())
    }

    /// Gives mutable access to the value at a position of the insertion order.
    pub fn entry_at_mut(&mut self, i: usize) -> (r: (EntityID, &mut T))
        requires
            old(self).wf(),
            i < old(self)@.len(),
        ensures
            r.0 == old(self)@[i as int].0,
            *r.1 == old(self)@[i as int].1,
            final(self).wf(),
            final(self)@ == old(self)@.update(i as int, (r.0, *final(r.1))),
    {
        broadcast use lemma_unique_ids_update;

        let c = &mut self.vec[i];
        let id = c.entity_id();
        (id, c.inner_mut())
    }

    /// Position of the entity's record, found through the index map.
    fn position(&self, entity_id: EntityID) -> (r: Option<usize>)
        requires
            self.wf(),
        ensures
            r.is_none() == !self.has(entity_id),
            r.is_some() ==> r.unwrap() as int == self.index_of(entity_id) && r.unwrap()
                < self@.len(),
    {
        broadcast use vstd::std_specs::hash::group_hash_axioms;

        match self.map.get(&entity_id) {
            Some(i) => {
                let i = *i;
                assert(self@[i as int].0 == entity_id);
                let ghost k = self.index_of(entity_id);
                assert(self@[k].0 == entity_id);
                Some(i)
            },
            None => {
                proof {
                    if self.has(entity_id) {
                        let k = self.index_of(entity_id);
                        assert(self.vec@[k].id() == entity_id);
                    }
                }
                None
            },
        }
    }

    /// The entity's value, or `None` when it has none.
    pub fn get(&self, entity_id: EntityID) -> (r: Option<&T>)
        requires
            self.wf(),
        ensures
            r.is_none() == !self.has(entity_id),
            r.is_some() ==> *r.unwrap() == self.lookup(entity_id).unwrap(),
    {
        match self.position(entity_id) {
            Some(i) => Some(self.vec[i].inner()),
            None => None,
        }
    }

    /// Mutable access to the entity's value, or `None` when it has none.
    pub fn get_mut(&mut self, entity_id: EntityID) -> (r: Option<&mut T>)
        requires
            old(self).wf(),
        ensures
            r.is_none() == !old(self).has(entity_id),
            r.is_none() ==> final(self)@ == old(self)@,
            r.is_some() ==> *r.unwrap() == old(self).lookup(entity_id).unwrap(),
            r.is_some() ==> final(self)@ == old(self)@.update(
                old(self).index_of(entity_id),
                (entity_id, *final(r.unwrap())),
            ),
            final(self).wf(),
    {
        match self.position(entity_id) {
            Some(i) => {
                let (_, v) = self.entry_at_mut(i);
                Some(v)
            },
            None => None,
        }
    }

    /// A cursor that hands out each record's value for change, in insertion order.
    pub fn iter_mut(&mut self) -> (r: ComponentIterMut<'_, T>)
        requires
            old(self).wf(),
        ensures
            r.container() == *old(self),
            r.pos() == 0,
            r.inv(),
            *final(self) == *final(r.container),
    {
        ComponentIterMut { container: self, pos: 0 }
    }

    /// A cursor over the records in insertion order.
    pub fn iter(&self) -> (r: ComponentIter<'_, T>)
        requires
            self.wf(),
        ensures
            r.container() == *self,
            r.pos() == 0,
            r.inv(),
    {
        ComponentIter { container: self, pos: 0 }
    }

}

/// A restartable, lazy walk over a store's records in insertion order.
pub struct ComponentIter<'a, T> {
    container: &'a ComponentContainer<T>,
    pos: usize,
}

impl<'a, T> ComponentIter<'a, T> {
    /// The store being walked.
    pub closed spec fn container(&self) -> ComponentContainer<T> {
        *self.container
    }

    /// How many records have been handed out so far.
    pub closed spec fn pos(&self) -> nat {
        self.pos as nat
    }

    pub open spec fn inv(&self) -> bool {
        &&& self.container().wf()
        &&& self.pos() <= self.container()@.len()
    }

    /// The next record, or `None` once every record has been handed out.
    pub fn next(&mut self) -> (r: Option<(EntityID, &'a T)>)
        requires
            old(self).inv(),
        ensures
            final(self).inv(),
            final(self).container() == old(self).container(),
            old(self).pos() < old(self).container()@.len() ==> {
                &&& final(self).pos() == old(self).pos() + 1
                &&& r.is_some()
                &&& r.unwrap().0 == old(self).container()@[old(self).pos() as int].0
                &&& *r.unwrap().1 == old(self).container()@[old(self).pos() as int].1
            },
            old(self).pos() == old(self).container()@.len() ==> r.is_none() && final(self).pos()
                == old(self).pos(),
    {
        if self.pos < self.container.len() {
            let e = self.container.entry_at(self.pos);
            self.pos = self.pos + 1;
            Some(e)
        } else {
            None
        }
    }
}

/// A lazy walk that hands out each record's value for change; it holds the
/// store exclusively while it lives. The store's value once the walk is over is
/// `*final(container)`.
pub struct ComponentIterMut<'a, T> {
    pub container: &'a mut ComponentContainer<T>,
    pub pos: usize,
}

impl<'a, T> ComponentIterMut<'a, T> {
    /// The store being walked, as it is now.
    pub open spec fn container(&self) -> ComponentContainer<T> {
        *self.container
    }

    /// How many records have been handed out so far.
    pub open spec fn pos(&self) -> nat {
        self.pos as nat
    }

    pub open spec fn inv(&self) -> bool {
        &&& self.container().wf()
        &&& self.pos() <= self.container()@.len()
    }

    /// The id of the next record, without handing it out.
    pub fn peek(&self) -> (r: Option<EntityID>)
        requires
            self.inv(),
        ensures
            self.pos() < self.container()@.len() ==> r == Some(
                self.container()@[self.pos() as int].0,
            ),
            self.pos() == self.container()@.len() ==> r.is_none(),
    {
        if self.pos < self.container.len() {
            let (id, _) = self.container.entry_at(self.pos);
            Some(id)
        } else {
            None
        }
    }

    /// Passes over the next record without handing it out.
    pub fn skip(&mut self)
        requires
            old(self).inv(),
            old(self).pos() < old(self).container()@.len(),
        ensures
            final(self).inv(),
            final(self).pos() == old(self).pos() + 1,
            final(self).container() == old(self).container(),
            *final(final(self).container) == *final(old(self).container),
    {
        if self.pos < self.container.len() {
            self.pos = self.pos + 1;
        }
    }

    /// The next record, its value open to change, or `None` at the end.
    pub fn next(&mut self) -> (r: Option<(EntityID, &mut T)>)
        requires
            old(self).inv(),
        ensures
            final(self).inv(),
            *final(final(self).container) == *final(old(self).container),
            old(self).pos() < old(self).container()@.len() ==> {
                let k = old(self).pos() as int;
                &&& final(self).pos() == old(self).pos() + 1
                &&& r.is_some()
                &&& r.unwrap().0 == old(self).container()@[k].0
                &&& *r.unwrap().1 == old(self).container()@[k].1
                &&& final(self).container()@ == old(self).container()@.update(
                    k,
                    (r.unwrap().0, *final(r.unwrap().1)),
                )
            },
            old(self).pos() == old(self).container()@.len() ==> r.is_none() && final(self).pos()
                == old(self).pos() && final(self).container() == old(self).container(),
    {
        if self.pos < self.container.len() {
            let i = self.pos;
            self.pos = self.pos + 1;
            Some(self.container.entry_at_mut(i))
        } else {
            None
        }
    }
}

/// After a successful `push(id, v)` on a store, looking `id` up gives `v`, and
/// a second `push` of `id` is refused: the store now has `id`.
pub proof fn lemma_push_then_lookup<T>(
    before: &ComponentContainer<T>,
    after: &ComponentContainer<T>,
    id: EntityID,
    v: T,
)
    requires
        before.wf(),
        !before.has(id),
        after@ == before@.push((id, v)),
    ensures
        after.has(id),
        after.lookup(id) == Some(v),
        forall|other: EntityID| other != id ==> after.lookup(other) == before.lookup(other),
{
    let n = before@.len() as int;
    assert(after@[n].0 == id);
    assert forall|i: int| 0 <= i < after@.len() && #[trigger] after@[i].0 == id implies i == n by {
        if i < n {
            assert(before@[i] == after@[i]);
        }
    }
    assert forall|other: EntityID| other != id implies after.lookup(other) == before.lookup(
        other,
    ) by {
        if before.has(other) {
            let i = before.index_of(other);
            assert(after@[i] == before@[i]);
        }
        if after.has(other) {
            let i = after.index_of(other);
            assert(i < n);
            assert(after@[i] == before@[i]);
        }
        if before.has(other) && after.has(other) {
            let i = before.index_of(other);
            let j = after.index_of(other);
            assert(after@[i] == before@[i]);
            assert(after@[j] == before@[j]);
            assert(unique_ids(before@));
        }
    }
}

} // verus!
