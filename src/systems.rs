use crate::animator::Animator;
use crate::observer::ValueObserver;
use crate::store::{ComponentContainer, EntityID};
use std::hash::Hash;
use vstd::prelude::*;
use vstd::std_specs::cmp::PartialEqSpec;

verus! {

/// Record `after` is record `before` after the sampling system: same id;
/// when the entity has a component in `other` the observer went through
/// `set` with it, and otherwise it is unchanged.
pub open spec fn set_record<V: PartialEq + PartialEqSpec + Copy, C, F: Fn(&C) -> V>(
    before: (EntityID, ValueObserver<V, C, F>),
    after: (EntityID, ValueObserver<V, C, F>),
    other: ComponentContainer<C>,
) -> bool {
    &&& after.0 == before.0
    &&& if other.has(before.0) {
        before.1.set_by(&other.lookup(before.0).unwrap(), after.1)
    } else {
        after.1 == before.1
    }
}

/// `after` holds the records of `before` in the same order, each one as
/// `set_record` says.
pub open spec fn all_set<V: PartialEq + PartialEqSpec + Copy, C, F: Fn(&C) -> V>(
    before: Seq<(EntityID, ValueObserver<V, C, F>)>,
    after: Seq<(EntityID, ValueObserver<V, C, F>)>,
    other: ComponentContainer<C>,
) -> bool {
    &&& after.len() == before.len()
    &&& forall|k: int| 0 <= k < before.len() ==> #[trigger] set_record(before[k], after[k], other)
}

/// Record `after` is record `before` after the comparing system: same id;
/// when the entity has a component in `other` the observer went through
/// `check` with it, and otherwise it is unchanged.
pub open spec fn check_record<V: PartialEq + PartialEqSpec + Copy, C, F: Fn(&C) -> V>(
    before: (EntityID, ValueObserver<V, C, F>),
    after: (EntityID, ValueObserver<V, C, F>),
    other: ComponentContainer<C>,
) -> bool {
    &&& after.0 == before.0
    &&& if other.has(before.0) {
        before.1.checked_by(&other.lookup(before.0).unwrap(), after.1, after.1.changed())
    } else {
        after.1 == before.1
    }
}

/// `after` holds the records of `before` in the same order, each one as
/// `check_record` says.
pub open spec fn all_checked<V: PartialEq + PartialEqSpec + Copy, C, F: Fn(&C) -> V>(
    before: Seq<(EntityID, ValueObserver<V, C, F>)>,
    after: Seq<(EntityID, ValueObserver<V, C, F>)>,
    other: ComponentContainer<C>,
) -> bool {
    &&& after.len() == before.len()
    &&& forall|k: int| 0 <= k < before.len() ==> #[trigger] check_record(before[k], after[k], other)
}

/// Record `after` is record `before` one animation `update` later, same id.
pub open spec fn updated_record<K: Hash + Eq + Copy, V>(
    before: (EntityID, Animator<K, V>),
    after: (EntityID, Animator<K, V>),
) -> bool {
    &&& after.0 == before.0
    &&& before.1.updated_to(after.1)
}

/// `after` holds the records of `before` in the same order, each animator one
/// `update` later.
pub open spec fn all_updated<K: Hash + Eq + Copy, V>(
    before: Seq<(EntityID, Animator<K, V>)>,
    after: Seq<(EntityID, Animator<K, V>)>,
) -> bool {
    &&& after.len() == before.len()
    &&& forall|k: int| 0 <= k < before.len() ==> #[trigger] updated_record(before[k], after[k])
}

/// Every observer in the store is well formed.
pub open spec fn all_observers_wf<V: PartialEq + PartialEqSpec + Copy, C, F: Fn(&C) -> V>(
    s: Seq<(EntityID, ValueObserver<V, C, F>)>,
) -> bool {
    forall|k: int| 0 <= k < s.len() ==> (#[trigger] s[k]).1.wf()
}

/// Every animator in the store is well formed.
pub open spec fn all_animators_wf<K: Hash + Eq + Copy, V>(s: Seq<(EntityID, Animator<K, V>)>) -> bool {
    forall|k: int| 0 <= k < s.len() ==> (#[trigger] s[k]).1.wf()
}

/// Samples each observed component: `set` on every observer whose entity has
/// a component.
pub fn observer_set_system<V: PartialEq + PartialEqSpec + Copy, C, F: Fn(&C) -> V>(
    observers: &mut ComponentContainer<ValueObserver<V, C, F>>,
    components: &ComponentContainer<C>,
)
    requires
        old(observers).wf(),
        all_observers_wf(old(observers)@),
        components.wf(),
    ensures
        final(observers).wf(),
        all_observers_wf(final(observers)@),
        all_set(old(observers)@, final(observers)@, *components),
{
    let ghost orig = observers@;
    let mut z = observers.iter_mut().zip_entity(components);
    let ghost fin = *final(z.base.container);
    loop
        invariant
            z.inv(),
            *z.other == *components,
            *final(z.base.container) == fin,
            z.base.container()@.len() == orig.len(),
            forall|k: int|
                0 <= k < z.base.pos() ==> #[trigger] set_record(orig[k], z.base.container()@[k], *components),
            forall|k: int| z.base.pos() <= k < orig.len() ==> #[trigger] z.base.container()@[k] == orig[k],
            all_observers_wf(z.base.container()@),
        ensures
            z.base.pos() == orig.len(),
        decreases orig.len() - z.base.pos(),
    {
        let ghost c0 = z.base.container()@;
        let ghost p0 = z.base.pos() as int;
        let ghost k = z.upcoming();
        match z.next() {
            None => {
                break;
            },
            Some((_, observer, component)) => {
                assert(c0[k].1.wf());
                observer.set(component);
                proof {
                    let cur = z.base.container()@;
                    assert forall|j: int| 0 <= j < z.base.pos() implies #[trigger] set_record(orig[j], cur[j], *components) by {
                        if j < p0 {
                            assert(set_record(orig[j], c0[j], *components));
                            assert(cur[j] == c0[j]);
                        } else if j < k {
                            assert(cur[j] == c0[j]);
                            assert(c0[j] == orig[j]);
                            assert(!components.has(c0[j].0));
                        } else {
                            assert(j == k);
                            assert(c0[k] == orig[k]);
                            assert(*component == components.lookup(orig[k].0).unwrap());
                            assert(set_record(orig[k], cur[k], *components));
                        }
                    }
                }
            },
        }
    }
}

/// Compares each observed component with its sample: `check` on every
/// observer whose entity has a component.
pub fn observer_check_system<V: PartialEq + PartialEqSpec + Copy, C, F: Fn(&C) -> V>(
    observers: &mut ComponentContainer<ValueObserver<V, C, F>>,
    components: &ComponentContainer<C>,
)
    requires
        old(observers).wf(),
        all_observers_wf(old(observers)@),
        components.wf(),
    ensures
        final(observers).wf(),
        all_observers_wf(final(observers)@),
        all_checked(old(observers)@, final(observers)@, *components),
{
    let ghost orig = observers@;
    let mut z = observers.iter_mut().zip_entity(components);
    let ghost fin = *final(z.base.container);
    loop
        invariant
            z.inv(),
            *z.other == *components,
            *final(z.base.container) == fin,
            z.base.container()@.len() == orig.len(),
            forall|k: int|
                0 <= k < z.base.pos() ==> #[trigger] check_record(orig[k], z.base.container()@[k], *components),
            forall|k: int| z.base.pos() <= k < orig.len() ==> #[trigger] z.base.container()@[k] == orig[k],
            all_observers_wf(z.base.container()@),
        ensures
            z.base.pos() == orig.len(),
        decreases orig.len() - z.base.pos(),
    {
        let ghost c0 = z.base.container()@;
        let ghost p0 = z.base.pos() as int;
        let ghost k = z.upcoming();
        match z.next() {
            None => {
                break;
            },
            Some((_, observer, component)) => {
                assert(c0[k].1.wf());
                observer.check(component);
                proof {
                    let cur = z.base.container()@;
                    assert forall|j: int| 0 <= j < z.base.pos() implies #[trigger] check_record(orig[j], cur[j], *components) by {
                        if j < p0 {
                            assert(check_record(orig[j], c0[j], *components));
                            assert(cur[j] == c0[j]);
                        } else if j < k {
                            assert(cur[j] == c0[j]);
                            assert(c0[j] == orig[j]);
                            assert(!components.has(c0[j].0));
                        } else {
                            assert(j == k);
                            assert(c0[k] == orig[k]);
                            assert(*component == components.lookup(orig[k].0).unwrap());
                            assert(check_record(orig[k], cur[k], *components));
                        }
                    }
                }
            },
        }
    }
}

/// Moves every animator one frame on.
pub fn animator_update_system<K: Hash + Eq + Copy, V>(
    animators: &mut ComponentContainer<Animator<K, V>>,
)
    requires
        old(animators).wf(),
        all_animators_wf(old(animators)@),
    ensures
        final(animators).wf(),
        all_animators_wf(final(animators)@),
        all_updated(old(animators)@, final(animators)@),
{
    let ghost orig = animators@;
    let mut it = animators.iter_mut();
    let ghost fin = *final(it.container);
    loop
        invariant
            it.inv(),
            *final(it.container) == fin,
            it.container()@.len() == orig.len(),
            forall|k: int|
                0 <= k < it.pos() ==> #[trigger] updated_record(orig[k], it.container()@[k]),
            forall|k: int| it.pos() <= k < orig.len() ==> #[trigger] it.container()@[k] == orig[k],
            all_animators_wf(it.container()@),
        ensures
            it.pos() == orig.len(),
        decreases orig.len() - it.pos(),
    {
        let ghost c0 = it.container()@;
        let ghost p0 = it.pos() as int;
        match it.next() {
            None => {
                break;
            },
            Some((_, animator)) => {
                assert(c0[p0].1.wf());
                animator.update();
                proof {
                    let cur = it.container()@;
                    assert forall|j: int| 0 <= j < it.pos() implies #[trigger] updated_record(
                        orig[j],
                        cur[j],
                    ) by {
                        if j < p0 {
                            assert(updated_record(orig[j], c0[j]));
                            assert(cur[j] == c0[j]);
                        } else {
                            assert(j == p0);
                            assert(c0[p0] == orig[p0]);
                            assert(updated_record(orig[p0], cur[p0]));
                        }
                    }
                }
            },
        }
    }
}

/// Marks the system that samples observers (`set`).
pub struct ForObserverSet;

/// Marks the system that compares observers with their samples (`check`).
pub struct ForObserverCheck;

/// One per-tick system: it reads `Sources` and writes the store it is called
/// on. Which system runs is fixed at compile time by the store's type and the
/// type of `Sources`; the caller runs systems in an order of its choosing.
pub trait SystemProcess<Sources>: Sized {
    /// The store and the sources meet what the system needs.
    spec fn ready(&self, sources: &Sources) -> bool;

    /// `after` is this store once the system has run over `sources`.
    spec fn processed(&self, sources: &Sources, after: &Self) -> bool;

    fn process(&mut self, sources: Sources)
        requires
            old(self).ready(&sources),
        ensures
            old(self).processed(&sources, &*final(self)),
    ;
}

impl<'a, V: PartialEq + PartialEqSpec + Copy, C, F: Fn(&C) -> V> SystemProcess<
    (&'a ComponentContainer<C>, ForObserverSet),
> for ComponentContainer<ValueObserver<V, C, F>> {
    open spec fn ready(&self, sources: &(&'a ComponentContainer<C>, ForObserverSet)) -> bool {
        &&& self.wf()
        &&& all_observers_wf(self@)
        &&& sources.0.wf()
    }

    open spec fn processed(
        &self,
        sources: &(&'a ComponentContainer<C>, ForObserverSet),
        after: &Self,
    ) -> bool {
        &&& after.wf()
        &&& all_observers_wf(after@)
        &&& all_set(self@, after@, *sources.0)
    }

    fn process(&mut self, sources: (&'a ComponentContainer<C>, ForObserverSet)) {
        observer_set_system(self, sources.0);
    }
}

impl<'a, V: PartialEq + PartialEqSpec + Copy, C, F: Fn(&C) -> V> SystemProcess<
    (&'a ComponentContainer<C>, ForObserverCheck),
> for ComponentContainer<ValueObserver<V, C, F>> {
    open spec fn ready(&self, sources: &(&'a ComponentContainer<C>, ForObserverCheck)) -> bool {
        &&& self.wf()
        &&& all_observers_wf(self@)
        &&& sources.0.wf()
    }

    open spec fn processed(
        &self,
        sources: &(&'a ComponentContainer<C>, ForObserverCheck),
        after: &Self,
    ) -> bool {
        &&& after.wf()
        &&& all_observers_wf(after@)
        &&& all_checked(self@, after@, *sources.0)
    }

    fn process(&mut self, sources: (&'a ComponentContainer<C>, ForObserverCheck)) {
        observer_check_system(self, sources.0);
    }
}

impl<K: Hash + Eq + Copy, V> SystemProcess<()> for ComponentContainer<Animator<K, V>> {
    open spec fn ready(&self, sources: &()) -> bool {
        &&& self.wf()
        &&& all_animators_wf(self@)
    }

    open spec fn processed(&self, sources: &(), after: &Self) -> bool {
        &&& after.wf()
        &&& all_animators_wf(after@)
        &&& all_updated(self@, after@)
    }

    fn process(&mut self, sources: ()) {
        animator_update_system(self);
    }
}

} // verus!
