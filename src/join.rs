use crate::store::{ids_of, unique_ids, ComponentContainer, ComponentIter, ComponentIterMut, EntityID};
use vstd::prelude::*;

verus! {

/// The ids of `ids` that also have a value in `other`, in the same order.
pub open spec fn joined_ids<U>(ids: Seq<EntityID>, other: ComponentContainer<U>) -> Seq<EntityID>
    decreases ids.len(),
{
    if ids.len() == 0 {
        Seq::empty()
    } else {
        let rest = joined_ids(ids.drop_last(), other);
        if other.has(ids.last()) {
            rest.push(ids.last())
        } else {
            rest
        }
    }
}

/// The ids of `ids` that also have a value in both `other1` and `other2`, in the same order.
pub open spec fn joined2_ids<U, V>(
    ids: Seq<EntityID>,
    other1: ComponentContainer<U>,
    other2: ComponentContainer<V>,
) -> Seq<EntityID>
    decreases ids.len(),
{
    if ids.len() == 0 {
        Seq::empty()
    } else {
        let rest = joined2_ids(ids.drop_last(), other1, other2);
        if other1.has(ids.last()) && other2.has(ids.last()) {
            rest.push(ids.last())
        } else {
            rest
        }
    }
}

/// The inner join of the records `base` with `other` on the entity id: each
/// record whose entity has a value in `other`, with that value, in `base`'s order.
pub open spec fn joined<T, U>(base: Seq<(EntityID, T)>, other: ComponentContainer<U>) -> Seq<
    (EntityID, T, U),
>
    decreases base.len(),
{
    if base.len() == 0 {
        Seq::empty()
    } else {
        let rest = joined(base.drop_last(), other);
        let e = base.last();
        if other.has(e.0) {
            rest.push((e.0, e.1, other.lookup(e.0).unwrap()))
        } else {
            rest
        }
    }
}

/// The three-way inner join of the records `base` with `other1` and `other2`.
pub open spec fn joined2<T, U, V>(
    base: Seq<(EntityID, T)>,
    other1: ComponentContainer<U>,
    other2: ComponentContainer<V>,
) -> Seq<(EntityID, T, U, V)>
    decreases base.len(),
{
    if base.len() == 0 {
        Seq::empty()
    } else {
        let rest = joined2(base.drop_last(), other1, other2);
        let e = base.last();
        if other1.has(e.0) && other2.has(e.0) {
            rest.push((e.0, e.1, other1.lookup(e.0).unwrap(), other2.lookup(e.0).unwrap()))
        } else {
            rest
        }
    }
}

/// Taking one more record of `s` extends the prefix by that record.
proof fn lemma_take_succ<A>(s: Seq<A>, p: int)
    requires
        0 <= p < s.len(),
    ensures
        s.take(p + 1).drop_last() == s.take(p),
        s.take(p + 1).last() == s[p],
        s.take(p + 1).len() == p + 1,
{
    assert(s.take(p + 1).drop_last() =~= s.take(p));
}

/// The ids of the join are the join of the ids.
proof fn lemma_joined_ids<T, U>(base: Seq<(EntityID, T)>, other: ComponentContainer<U>)
    ensures
        joined(base, other).map_values(|e: (EntityID, T, U)| e.0) == joined_ids(
            ids_of(base),
            other,
        ),
    decreases base.len(),
{
    if base.len() > 0 {
        lemma_joined_ids(base.drop_last(), other);
        assert(ids_of(base.drop_last()) =~= ids_of(base).drop_last());
    }
    assert(joined(base, other).map_values(|e: (EntityID, T, U)| e.0) =~= joined_ids(
        ids_of(base),
        other,
    ));
}

/// The ids of the three-way join are the three-way join of the ids.
proof fn lemma_joined2_ids<T, U, V>(
    base: Seq<(EntityID, T)>,
    other1: ComponentContainer<U>,
    other2: ComponentContainer<V>,
)
    ensures
        joined2(base, other1, other2).map_values(|e: (EntityID, T, U, V)| e.0) == joined2_ids(
            ids_of(base),
            other1,
            other2,
        ),
    decreases base.len(),
{
    if base.len() > 0 {
        lemma_joined2_ids(base.drop_last(), other1, other2);
        assert(ids_of(base.drop_last()) =~= ids_of(base).drop_last());
    }
    assert(joined2(base, other1, other2).map_values(|e: (EntityID, T, U, V)| e.0)
        =~= joined2_ids(ids_of(base), other1, other2));
}

/// Membership, order and uniqueness of a join over a sequence of distinct ids.
proof fn lemma_joined_ids_facts<U>(ids: Seq<EntityID>, other: ComponentContainer<U>)
    requires
        ids.no_duplicates(),
    ensures
        forall|id: EntityID| #[trigger]
            joined_ids(ids, other).contains(id) <==> ids.contains(id) && other.has(id),
        forall|k1: int, k2: int, i1: int, i2: int|
            #![trigger joined_ids(ids, other)[k1], joined_ids(ids, other)[k2], ids[i1], ids[i2]]
            0 <= k1 < k2 < joined_ids(ids, other).len() && 0 <= i1 < ids.len() && 0 <= i2
                < ids.len() && ids[i1] == joined_ids(ids, other)[k1] && ids[i2] == joined_ids(
                ids,
                other,
            )[k2] ==> i1 < i2,
        joined_ids(ids, other).no_duplicates(),
    decreases ids.len(),
{
    let j = joined_ids(ids, other);
    if ids.len() > 0 {
        let prev = ids.drop_last();
        let last = ids.last();
        let n = prev.len() as int;
        assert(prev.no_duplicates()) by {
            assert forall|a: int, b: int| 0 <= a < prev.len() && 0 <= b < prev.len() && a != b implies prev[a] != prev[b] by {
                assert(prev[a] == ids[a] && prev[b] == ids[b]);
            }
        }
        lemma_joined_ids_facts(prev, other);
        let jp = joined_ids(prev, other);
        assert(!prev.contains(last)) by {
            if prev.contains(last) {
                let a = choose|a: int| 0 <= a < prev.len() && prev[a] == last;
                assert(ids[a] == ids[n]);
            }
        }
        // Every id of the shorter join stands before the last position.
        assert forall|k: int, i: int|
            0 <= k < jp.len() && 0 <= i < ids.len() && ids[i] == jp[k] implies i < n by {
            assert(jp.contains(jp[k]));
            if i == n {
                assert(prev.contains(last));
            }
        }
        assert forall|id: EntityID| #[trigger] j.contains(id) <==> ids.contains(id) && other.has(id) by {
            assert(jp.contains(id) <==> prev.contains(id) && other.has(id));
            if ids.contains(id) {
                let i = choose|i: int| 0 <= i < ids.len() && ids[i] == id;
                if i < n {
                    assert(prev[i] == id);
                }
            }
            if prev.contains(id) {
                let i = choose|i: int| 0 <= i < prev.len() && prev[i] == id;
                assert(ids[i] == id);
            }
            if other.has(last) {
                assert(j == jp.push(last));
                if j.contains(id) && !jp.contains(id) {
                    let k = choose|k: int| 0 <= k < j.len() && j[k] == id;
                    assert(k == jp.len());
                }
                if jp.contains(id) {
                    let k = choose|k: int| 0 <= k < jp.len() && jp[k] == id;
                    assert(j[k] == id);
                }
                assert(j[jp.len() as int] == last);
            }
        }
        assert forall|k1: int, k2: int, i1: int, i2: int|
            #![trigger j[k1], j[k2], ids[i1], ids[i2]]
            0 <= k1 < k2 < j.len() && 0 <= i1 < ids.len() && 0 <= i2 < ids.len() && ids[i1]
                == j[k1] && ids[i2] == j[k2] implies i1 < i2 by {
            if k2 < jp.len() {
                assert(j[k1] == jp[k1] && j[k2] == jp[k2]);
                assert(i1 < n && i2 < n);
                assert(prev[i1] == ids[i1] && prev[i2] == ids[i2]);
            } else {
                assert(j[k1] == jp[k1]);
                assert(i1 < n);
                assert(j[k2] == last);
                if i2 < n {
                    assert(prev[i2] == last);
                }
            }
        }
        assert forall|a: int, b: int| 0 <= a < j.len() && 0 <= b < j.len() && a != b implies j[a]
            != j[b] by {
            assert(j.contains(j[a]));
            let i = choose|i: int| 0 <= i < ids.len() && ids[i] == j[a];
            if a < b {
                if j[a] == j[b] {
                    assert(ids[i] == j[a] && ids[i] == j[b]);
                }
            } else {
                if j[a] == j[b] {
                    assert(ids[i] == j[b] && ids[i] == j[a]);
                }
            }
        }
    }
}

/// The ids of `ids_of(s)` are distinct when the records' ids are.
proof fn lemma_ids_no_duplicates<T>(s: Seq<(EntityID, T)>)
    requires
        unique_ids(s),
    ensures
        ids_of(s).no_duplicates(),
        forall|id: EntityID| #[trigger]
            ids_of(s).contains(id) <==> exists|i: int| 0 <= i < s.len() && #[trigger] s[i].0 == id,
{
    let ids = ids_of(s);
    assert forall|a: int, b: int| 0 <= a < ids.len() && 0 <= b < ids.len() && a != b implies ids[a]
        != ids[b] by {
        assert(ids[a] == s[a].0 && ids[b] == s[b].0);
    }
    assert forall|id: EntityID| #[trigger]
        ids.contains(id) <==> exists|i: int| 0 <= i < s.len() && #[trigger] s[i].0 == id by {
        if ids.contains(id) {
            let i = choose|i: int| 0 <= i < ids.len() && ids[i] == id;
            assert(s[i].0 == id);
        }
        if exists|i: int| 0 <= i < s.len() && #[trigger] s[i].0 == id {
            let i = choose|i: int| 0 <= i < s.len() && #[trigger] s[i].0 == id;
            assert(ids[i] == id);
        }
    }
}

/// A two-way join yields exactly the entities that have a value in both
/// stores, each once, in the base store's insertion order; the ids of what a
/// complete run of `ZipEntity` yields (`joined`) are these.
pub proof fn lemma_zip_entity_yields_common_ids<T, U>(
    base: &ComponentContainer<T>,
    other: &ComponentContainer<U>,
)
    requires
        base.wf(),
    ensures
        forall|id: EntityID| #[trigger]
            joined_ids(ids_of(base@), *other).contains(id) <==> base.has(id) && other.has(id),
        joined_ids(ids_of(base@), *other).no_duplicates(),
        forall|k1: int, k2: int|
            0 <= k1 < k2 < joined_ids(ids_of(base@), *other).len() ==> base.index_of(
                #[trigger] joined_ids(ids_of(base@), *other)[k1],
            ) < base.index_of(#[trigger] joined_ids(ids_of(base@), *other)[k2]),
        joined(base@, *other).map_values(|e: (EntityID, T, U)| e.0) == joined_ids(
            ids_of(base@),
            *other,
        ),
{
    lemma_joined_ids(base@, *other);
    let ids = ids_of(base@);
    let j = joined_ids(ids, *other);
    lemma_ids_no_duplicates(base@);
    lemma_joined_ids_facts(ids, *other);
    assert forall|k1: int, k2: int| 0 <= k1 < k2 < j.len() implies base.index_of(#[trigger] j[k1])
        < base.index_of(#[trigger] j[k2]) by {
        assert(j.contains(j[k1]) && j.contains(j[k2]));
        let i1 = base.index_of(j[k1]);
        let i2 = base.index_of(j[k2]);
        assert(ids[i1] == j[k1]);
        assert(ids[i2] == j[k2]);
    }
}

/// A three-way join yields exactly the entities that have a value in all
/// three stores, each once; the ids of what a complete run of `ZipEntity2`
/// yields (`joined2`) are these.
pub proof fn lemma_zip_entity2_yields_common_ids<T, U, V>(
    base: &ComponentContainer<T>,
    other1: &ComponentContainer<U>,
    other2: &ComponentContainer<V>,
)
    requires
        base.wf(),
    ensures
        forall|id: EntityID| #[trigger]
            joined2_ids(ids_of(base@), *other1, *other2).contains(id) <==> base.has(id)
                && other1.has(id) && other2.has(id),
        joined2_ids(ids_of(base@), *other1, *other2).no_duplicates(),
        joined2(base@, *other1, *other2).map_values(|e: (EntityID, T, U, V)| e.0) == joined2_ids(
            ids_of(base@),
            *other1,
            *other2,
        ),
{
    lemma_joined2_ids(base@, *other1, *other2);
    lemma_ids_no_duplicates(base@);
    lemma_joined2_ids_facts(ids_of(base@), *other1, *other2);
}

/// Two complete runs of a join over the same unmodified pair of stores yield
/// the same sequence: a finished run has yielded `joined(base, other)`.
pub proof fn lemma_zip_entity_deterministic<'a, 'b, T, U>(
    run1: ZipEntity<'a, T, U>,
    run2: ZipEntity<'b, T, U>,
)
    requires
        run1.inv(),
        run2.inv(),
        run1.base().container() == run2.base().container(),
        run1.other() == run2.other(),
        run1.base().pos() == run1.base().container()@.len(),
        run2.base().pos() == run2.base().container()@.len(),
    ensures
        run1.produced() == run2.produced(),
        run1.produced() == joined(run1.base().container()@, run1.other()),
{
    assert(run1.base().container()@.take(run1.base().pos() as int) =~= run1.base().container()@);
    assert(run2.base().container()@.take(run2.base().pos() as int) =~= run2.base().container()@);
}

/// Membership and uniqueness of a three-way join over distinct ids.
proof fn lemma_joined2_ids_facts<U, V>(
    ids: Seq<EntityID>,
    other1: ComponentContainer<U>,
    other2: ComponentContainer<V>,
)
    requires
        ids.no_duplicates(),
    ensures
        forall|id: EntityID| #[trigger]
            joined2_ids(ids, other1, other2).contains(id) <==> ids.contains(id) && other1.has(id)
                && other2.has(id),
        joined2_ids(ids, other1, other2).no_duplicates(),
    decreases ids.len(),
{
    let j = joined2_ids(ids, other1, other2);
    if ids.len() > 0 {
        let prev = ids.drop_last();
        let last = ids.last();
        let n = prev.len() as int;
        assert(prev.no_duplicates()) by {
            assert forall|a: int, b: int| 0 <= a < prev.len() && 0 <= b < prev.len() && a != b implies prev[a] != prev[b] by {
                assert(prev[a] == ids[a] && prev[b] == ids[b]);
            }
        }
        lemma_joined2_ids_facts(prev, other1, other2);
        let jp = joined2_ids(prev, other1, other2);
        assert(!prev.contains(last)) by {
            if prev.contains(last) {
                let a = choose|a: int| 0 <= a < prev.len() && prev[a] == last;
                assert(ids[a] == ids[n]);
            }
        }
        assert forall|id: EntityID| #[trigger] j.contains(id) <==> ids.contains(id) && other1.has(id)
            && other2.has(id) by {
            assert(jp.contains(id) <==> prev.contains(id) && other1.has(id) && other2.has(id));
            if ids.contains(id) {
                let i = choose|i: int| 0 <= i < ids.len() && ids[i] == id;
                if i < n {
                    assert(prev[i] == id);
                }
            }
            if prev.contains(id) {
                let i = choose|i: int| 0 <= i < prev.len() && prev[i] == id;
                assert(ids[i] == id);
            }
            if other1.has(last) && other2.has(last) {
                assert(j == jp.push(last));
                if j.contains(id) && !jp.contains(id) {
                    let k = choose|k: int| 0 <= k < j.len() && j[k] == id;
                    assert(k == jp.len());
                }
                if jp.contains(id) {
                    let k = choose|k: int| 0 <= k < jp.len() && jp[k] == id;
                    assert(j[k] == id);
                }
                assert(j[jp.len() as int] == last);
            }
        }
        assert forall|a: int, b: int| 0 <= a < j.len() && 0 <= b < j.len() && a != b implies j[a]
            != j[b] by {
            if other1.has(last) && other2.has(last) {
                assert(j == jp.push(last));
                if a < jp.len() && b < jp.len() {
                    assert(j[a] == jp[a] && j[b] == jp[b]);
                } else if a < jp.len() {
                    assert(jp.contains(j[a]));
                } else {
                    assert(jp.contains(j[b]));
                }
            }
        }
    }
}

impl<'a, T> ComponentIter<'a, T> {
    /// Joins the rest of this walk with `other` on the entity id.
    pub fn zip_entity<U>(self, other: &'a ComponentContainer<U>) -> (r: ZipEntity<'a, T, U>)
        requires
            self.inv(),
            other.wf(),
        ensures
            r.base() == self,
            r.other() == *other,
            r.inv(),
    {
        ZipEntity { base: self, other }
    }

    /// Joins the rest of this walk with `other1` and `other2` on the entity id.
    pub fn zip_entity2<U, V>(
        self,
        other1: &'a ComponentContainer<U>,
        other2: &'a ComponentContainer<V>,
    ) -> (r: ZipEntity2<'a, T, U, V>)
        requires
            self.inv(),
            other1.wf(),
            other2.wf(),
        ensures
            r.base() == self,
            r.other1() == *other1,
            r.other2() == *other2,
            r.inv(),
    {
        ZipEntity2 { base: self, other1, other2 }
    }
}

/// A lazy inner join of a store walk with a second store, on the entity id.
pub struct ZipEntity<'a, T, U> {
    base: ComponentIter<'a, T>,
    other: &'a ComponentContainer<U>,
}

impl<'a, T, U> ZipEntity<'a, T, U> {
    pub closed spec fn base(&self) -> ComponentIter<'a, T> {
        self.base
    }

    pub closed spec fn other(&self) -> ComponentContainer<U> {
        *self.other
    }

    pub open spec fn inv(&self) -> bool {
        &&& self.base().inv()
        &&& self.other().wf()
    }

    /// What the join has yielded from the start of the base store up to now.
    pub open spec fn produced(&self) -> Seq<(EntityID, T, U)> {
        joined(self.base().container()@.take(self.base().pos() as int), self.other())
    }

    /// The next joined triple (id, base value, other value), or `None` once
    /// the base walk is over.
    pub fn next(&mut self) -> (r: Option<(EntityID, &'a T, &'a U)>)
        requires
            old(self).inv(),
        ensures
            final(self).inv(),
            final(self).base().container() == old(self).base().container(),
            final(self).other() == old(self).other(),
            old(self).base().pos() <= final(self).base().pos(),
            r.is_some() ==> final(self).produced() == old(self).produced().push(
                (r.unwrap().0, *r.unwrap().1, *r.unwrap().2),
            ),
            r.is_none() ==> final(self).produced() == old(self).produced() && final(self).produced()
                == joined(old(self).base().container()@, old(self).other()),
    {
        loop
            invariant
                self.inv(),
                self.base().container() == old(self).base().container(),
                self.other() == old(self).other(),
                old(self).base().pos() <= self.base().pos(),
                self.produced() == old(self).produced(),
            decreases self.base().container()@.len() - self.base().pos(),
        {
            let ghost p = self.base().pos() as int;
            let ghost c = self.base().container()@;
            match self.base.next() {
                None => {
                    assert(c.take(p) =~= c);
                    return None;
                },
                Some((id, t)) => {
                    proof {
                        lemma_take_succ(c, p);
                    }
                    match self.other.get(id) {
                        Some(u) => {
                            return Some((id, t, u));
                        },
                        None => {},
                    }
                },
            }
        }
    }
}

/// A lazy three-way inner join of a store walk with two more stores.
pub struct ZipEntity2<'a, T, U, V> {
    base: ComponentIter<'a, T>,
    other1: &'a ComponentContainer<U>,
    other2: &'a ComponentContainer<V>,
}

impl<'a, T, U, V> ZipEntity2<'a, T, U, V> {
    pub closed spec fn base(&self) -> ComponentIter<'a, T> {
        self.base
    }

    pub closed spec fn other1(&self) -> ComponentContainer<U> {
        *self.other1
    }

    pub closed spec fn other2(&self) -> ComponentContainer<V> {
        *self.other2
    }

    pub open spec fn inv(&self) -> bool {
        &&& self.base().inv()
        &&& self.other1().wf()
        &&& self.other2().wf()
    }

    /// What the join has yielded from the start of the base store up to now.
    pub open spec fn produced(&self) -> Seq<(EntityID, T, U, V)> {
        joined2(
            self.base().container()@.take(self.base().pos() as int),
            self.other1(),
            self.other2(),
        )
    }

    /// The next joined record (id and the three values), or `None` once the
    /// base walk is over.
    pub fn next(&mut self) -> (r: Option<(EntityID, &'a T, &'a U, &'a V)>)
        requires
            old(self).inv(),
        ensures
            final(self).inv(),
            final(self).base().container() == old(self).base().container(),
            final(self).other1() == old(self).other1(),
            final(self).other2() == old(self).other2(),
            old(self).base().pos() <= final(self).base().pos(),
            r.is_some() ==> final(self).produced() == old(self).produced().push(
                (r.unwrap().0, *r.unwrap().1, *r.unwrap().2, *r.unwrap().3),
            ),
            r.is_none() ==> final(self).produced() == old(self).produced() && final(self).produced()
                == joined2(old(self).base().container()@, old(self).other1(), old(self).other2()),
    {
        loop
            invariant
                self.inv(),
                self.base().container() == old(self).base().container(),
                self.other1() == old(self).other1(),
                self.other2() == old(self).other2(),
                old(self).base().pos() <= self.base().pos(),
                self.produced() == old(self).produced(),
            decreases self.base().container()@.len() - self.base().pos(),
        {
            let ghost p = self.base().pos() as int;
            let ghost c = self.base().container()@;
            match self.base.next() {
                None => {
                    assert(c.take(p) =~= c);
                    return None;
                },
                Some((id, t)) => {
                    proof {
                        lemma_take_succ(c, p);
                    }
                    let u = self.other1.get(id);
                    let v = self.other2.get(id);
                    if u.is_some() && v.is_some() {
                        return Some((id, t, u.unwrap(), v.unwrap()));
                    }
                },
            }
        }
    }
}

/// Changing the value of one record leaves the ids as they were.
proof fn lemma_ids_of_update<T>(s: Seq<(EntityID, T)>, k: int, id: EntityID, v: T)
    requires
        0 <= k < s.len(),
        id == s[k].0,
    ensures
        ids_of(s.update(k, (id, v))) == ids_of(s),
{
    assert(ids_of(s.update(k, (id, v))) =~= ids_of(s));
}

impl<'a, T> ComponentIterMut<'a, T> {
    /// Joins the rest of this walk with `other` on the entity id; only the
    /// walked store can be changed.
    pub fn zip_entity<U>(self, other: &'a ComponentContainer<U>) -> (r: ZipEntityMut<'a, T, U>)
        requires
            self.inv(),
            other.wf(),
        ensures
            r.base == self,
            *r.other == *other,
            r.inv(),
    {
        ZipEntityMut { base: self, other }
    }

    /// Joins the rest of this walk with `other1` and `other2` on the entity id;
    /// only the walked store can be changed.
    pub fn zip_entity2<U, V>(
        self,
        other1: &'a ComponentContainer<U>,
        other2: &'a ComponentContainer<V>,
    ) -> (r: ZipEntity2Mut<'a, T, U, V>)
        requires
            self.inv(),
            other1.wf(),
            other2.wf(),
        ensures
            r.base == self,
            *r.other1 == *other1,
            *r.other2 == *other2,
            r.inv(),
    {
        ZipEntity2Mut { base: self, other1, other2 }
    }
}

/// The first position at or after `from` whose id has a value in `other`,
/// or `ids.len()` when there is none.
pub open spec fn next_match<U>(ids: Seq<EntityID>, other: ComponentContainer<U>, from: int) -> int
    decreases ids.len() - from,
{
    if from >= ids.len() {
        ids.len() as int
    } else if other.has(ids[from]) {
        from
    } else {
        next_match(ids, other, from + 1)
    }
}

/// The first position at or after `from` whose id has a value in both
/// `other1` and `other2`, or `ids.len()` when there is none.
pub open spec fn next_match2<U, V>(
    ids: Seq<EntityID>,
    other1: ComponentContainer<U>,
    other2: ComponentContainer<V>,
    from: int,
) -> int
    decreases ids.len() - from,
{
    if from >= ids.len() {
        ids.len() as int
    } else if other1.has(ids[from]) && other2.has(ids[from]) {
        from
    } else {
        next_match2(ids, other1, other2, from + 1)
    }
}

/// A next match stands between `from` and the end.
proof fn lemma_next_match_bounds<U>(ids: Seq<EntityID>, other: ComponentContainer<U>, from: int)
    requires
        0 <= from <= ids.len(),
    ensures
        from <= next_match(ids, other, from) <= ids.len(),
    decreases ids.len() - from,
{
    if from < ids.len() && !other.has(ids[from]) {
        lemma_next_match_bounds(ids, other, from + 1);
    }
}

/// A next match of a three-way join stands between `from` and the end.
proof fn lemma_next_match2_bounds<U, V>(
    ids: Seq<EntityID>,
    other1: ComponentContainer<U>,
    other2: ComponentContainer<V>,
    from: int,
)
    requires
        0 <= from <= ids.len(),
    ensures
        from <= next_match2(ids, other1, other2, from) <= ids.len(),
    decreases ids.len() - from,
{
    if from < ids.len() && !(other1.has(ids[from]) && other2.has(ids[from])) {
        lemma_next_match2_bounds(ids, other1, other2, from + 1);
    }
}

/// A lazy inner join of a changing store walk with a second, read-only store.
pub struct ZipEntityMut<'a, T, U> {
    pub base: ComponentIterMut<'a, T>,
    pub other: &'a ComponentContainer<U>,
}

impl<'a, T, U> ZipEntityMut<'a, T, U> {
    pub open spec fn inv(&self) -> bool {
        &&& self.base.inv()
        &&& self.other.wf()
    }

    /// The ids the join has yielded from the start of the base store up to now.
    pub open spec fn produced_ids(&self) -> Seq<EntityID> {
        joined_ids(ids_of(self.base.container()@).take(self.base.pos() as int), *self.other)
    }

    /// Position of the record the next call yields (the store's length when none is left).
    pub open spec fn upcoming(&self) -> int {
        next_match(ids_of(self.base.container()@), *self.other, self.base.pos() as int)
    }

    /// The next joined triple (id, base value open to change, other value), or
    /// `None` once the base walk is over.
    pub fn next(&mut self) -> (r: Option<(EntityID, &mut T, &'a U)>)
        requires
            old(self).inv(),
        ensures
            final(self).inv(),
            *final(final(self).base.container) == *final(old(self).base.container),
            *final(self).other == *old(self).other,
            old(self).base.pos() <= old(self).upcoming() <= old(self).base.container()@.len(),
            forall|j: int|
                old(self).base.pos() <= j < old(self).upcoming() ==> !old(self).other.has(
                    #[trigger] old(self).base.container()@[j].0,
                ),
            r.is_some() == (old(self).upcoming() < old(self).base.container()@.len()),
            r.is_some() ==> {
                let k = old(self).upcoming();
                let id = r.unwrap().0;
                &&& final(self).base.pos() == k + 1
                &&& id == old(self).base.container()@[k].0
                &&& *r.unwrap().1 == old(self).base.container()@[k].1
                &&& old(self).other.has(id)
                &&& *r.unwrap().2 == old(self).other.lookup(id).unwrap()
                &&& final(self).base.container()@ == old(self).base.container()@.update(
                    k,
                    (id, *final(r.unwrap().1)),
                )
                &&& final(self).produced_ids() == old(self).produced_ids().push(id)
            },
            r.is_none() ==> {
                &&& final(self).base.pos() == final(self).base.container()@.len()
                &&& final(self).base.container() == old(self).base.container()
                &&& final(self).produced_ids() == old(self).produced_ids()
                &&& final(self).produced_ids() == joined_ids(
                    ids_of(old(self).base.container()@),
                    *old(self).other,
                )
            },
    {
        let ghost k0 = self.upcoming();
        proof {
            lemma_next_match_bounds(ids_of(self.base.container()@), *self.other, self.base.pos() as int);
        }
        loop
            invariant
                self.inv(),
                self.base.container() == old(self).base.container(),
                *final(self.base.container) == *final(old(self).base.container),
                *self.other == *old(self).other,
                old(self).base.pos() <= self.base.pos() <= k0,
                k0 == old(self).upcoming(),
                self.upcoming() == k0,
                self.produced_ids() == old(self).produced_ids(),
                forall|j: int|
                    old(self).base.pos() <= j < self.base.pos() ==> !self.other.has(
                        #[trigger] self.base.container()@[j].0,
                    ),
            decreases self.base.container()@.len() - self.base.pos(),
        {
            let ghost p = self.base.pos() as int;
            let ghost c = self.base.container()@;
            let ghost ids = ids_of(c);
            match self.base.peek() {
                None => {
                    assert(ids.take(p) =~= ids);
                    return None;
                },
                Some(id) => {
                    proof {
                        lemma_take_succ(ids, p);
                    }
                    match self.other.get(id) {
                        Some(u) => {
                            let (i, t) = self.base.next().unwrap();
                            proof {
                                lemma_ids_of_update(c, p, i, *final(t));
                            }
                            return Some((i, t, u));
                        },
                        None => {
                            self.base.skip();
                            proof {
                                lemma_next_match_bounds(ids, *self.other, p + 1);
                            }
                        },
                    }
                },
            }
        }
    }
}

/// A lazy three-way inner join of a changing store walk with two read-only stores.
pub struct ZipEntity2Mut<'a, T, U, V> {
    pub base: ComponentIterMut<'a, T>,
    pub other1: &'a ComponentContainer<U>,
    pub other2: &'a ComponentContainer<V>,
}

impl<'a, T, U, V> ZipEntity2Mut<'a, T, U, V> {
    pub open spec fn inv(&self) -> bool {
        &&& self.base.inv()
        &&& self.other1.wf()
        &&& self.other2.wf()
    }

    /// The ids the join has yielded from the start of the base store up to now.
    pub open spec fn produced_ids(&self) -> Seq<EntityID> {
        joined2_ids(
            ids_of(self.base.container()@).take(self.base.pos() as int),
            *self.other1,
            *self.other2,
        )
    }

    /// Position of the record the next call yields (the store's length when none is left).
    pub open spec fn upcoming(&self) -> int {
        next_match2(
            ids_of(self.base.container()@),
            *self.other1,
            *self.other2,
            self.base.pos() as int,
        )
    }

    /// The next joined record (id, base value open to change, and the two
    /// other values), or `None` once the base walk is over.
    pub fn next(&mut self) -> (r: Option<(EntityID, &mut T, &'a U, &'a V)>)
        requires
            old(self).inv(),
        ensures
            final(self).inv(),
            *final(final(self).base.container) == *final(old(self).base.container),
            *final(self).other1 == *old(self).other1,
            *final(self).other2 == *old(self).other2,
            old(self).base.pos() <= old(self).upcoming() <= old(self).base.container()@.len(),
            forall|j: int|
                old(self).base.pos() <= j < old(self).upcoming() ==> !(old(self).other1.has(
                    #[trigger] old(self).base.container()@[j].0,
                ) && old(self).other2.has(old(self).base.container()@[j].0)),
            r.is_some() == (old(self).upcoming() < old(self).base.container()@.len()),
            r.is_some() ==> {
                let k = old(self).upcoming();
                let id = r.unwrap().0;
                &&& final(self).base.pos() == k + 1
                &&& id == old(self).base.container()@[k].0
                &&& *r.unwrap().1 == old(self).base.container()@[k].1
                &&& old(self).other1.has(id)
                &&& old(self).other2.has(id)
                &&& *r.unwrap().2 == old(self).other1.lookup(id).unwrap()
                &&& *r.unwrap().3 == old(self).other2.lookup(id).unwrap()
                &&& final(self).base.container()@ == old(self).base.container()@.update(
                    k,
                    (id, *final(r.unwrap().1)),
                )
                &&& final(self).produced_ids() == old(self).produced_ids().push(id)
            },
            r.is_none() ==> {
                &&& final(self).base.pos() == final(self).base.container()@.len()
                &&& final(self).base.container() == old(self).base.container()
                &&& final(self).produced_ids() == old(self).produced_ids()
                &&& final(self).produced_ids() == joined2_ids(
                    ids_of(old(self).base.container()@),
                    *old(self).other1,
                    *old(self).other2,
                )
            },
    {
        let ghost k0 = self.upcoming();
        proof {
            lemma_next_match2_bounds(
                ids_of(self.base.container()@),
                *self.other1,
                *self.other2,
                self.base.pos() as int,
            );
        }
        loop
            invariant
                self.inv(),
                self.base.container() == old(self).base.container(),
                *final(self.base.container) == *final(old(self).base.container),
                *self.other1 == *old(self).other1,
                *self.other2 == *old(self).other2,
                old(self).base.pos() <= self.base.pos() <= k0,
                k0 == old(self).upcoming(),
                self.upcoming() == k0,
                self.produced_ids() == old(self).produced_ids(),
                forall|j: int|
                    old(self).base.pos() <= j < self.base.pos() ==> !(self.other1.has(
                        #[trigger] self.base.container()@[j].0,
                    ) && self.other2.has(self.base.container()@[j].0)),
            decreases self.base.container()@.len() - self.base.pos(),
        {
            let ghost p = self.base.pos() as int;
            let ghost c = self.base.container()@;
            let ghost ids = ids_of(c);
            match self.base.peek() {
                None => {
                    assert(ids.take(p) =~= ids);
                    return None;
                },
                Some(id) => {
                    proof {
                        lemma_take_succ(ids, p);
                    }
                    let u = self.other1.get(id);
                    let v = self.other2.get(id);
                    if u.is_some() && v.is_some() {
                        let (i, t) = self.base.next().unwrap();
                        proof {
                            lemma_ids_of_update(c, p, i, *final(t));
                        }
                        return Some((i, t, u.unwrap(), v.unwrap()));
                    } else {
                        self.base.skip();
                        proof {
                            lemma_next_match2_bounds(ids, *self.other1, *self.other2, p + 1);
                        }
                    }
                },
            }
        }
    }
}
} // verus!
