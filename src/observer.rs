use vstd::prelude::*;
use vstd::std_specs::cmp::PartialEqSpec;

verus! {

/// A change detector over a projection of a component, read one tick late.
///
/// Each tick calls `set` and then `check` once each. `is_changed` reports the
/// result of the check one full tick earlier, so it is fixed for a whole tick.
pub struct ValueObserver<V, C, F> {
    prev_changed: bool,
    changed: bool,
    value: V,
    check_fn: F,
    component: core::marker::PhantomData<C>,
}

impl<V: PartialEq + PartialEqSpec + Copy, C, F: Fn(&C) -> V> ValueObserver<V, C, F> {
    /// The changed flag of the check one cycle before the latest one.
    pub closed spec fn prev_changed(&self) -> bool {
        self.prev_changed
    }

    /// The changed flag of the latest check.
    pub closed spec fn changed(&self) -> bool {
        self.changed
    }

    /// The projected value sampled by the latest `set`.
    pub closed spec fn snapshot(&self) -> V {
        self.value
    }

    /// The projection from a component to the observed value.
    pub closed spec fn projection(&self) -> F {
        self.check_fn
    }

    /// The projection takes every component, and `==` on `V` follows its spec.
    pub open spec fn wf(&self) -> bool {
        &&& V::obeys_eq_spec()
        &&& forall|c: C| #[trigger] call_requires(self.projection(), (&c,))
    }

    /// `next` is this observer after `set(c)`.
    pub open spec fn set_by(&self, c: &C, next: Self) -> bool {
        &&& next.wf()
        &&& next.projection() == self.projection()
        &&& next.prev_changed() == self.changed()
        &&& !next.changed()
        &&& call_ensures(self.projection(), (c,), next.snapshot())
    }

    /// `next` is this observer after a `check(c)` that returned `changed`.
    pub open spec fn checked_by(&self, c: &C, next: Self, changed: bool) -> bool {
        &&& next.wf()
        &&& next.projection() == self.projection()
        &&& next.snapshot() == self.snapshot()
        &&& next.prev_changed() == self.prev_changed()
        &&& next.changed() == changed
        &&& exists|p: V| #[trigger]
            call_ensures(self.projection(), (c,), p) && changed == !p.eq_spec(&self.snapshot())
    }

    pub fn new(value: V, check_fn: F) -> (r: Self)
        requires
            V::obeys_eq_spec(),
            forall|c: C| #[trigger] call_requires(check_fn, (&c,)),
        ensures
            r.wf(),
            r.snapshot() == value,
            r.projection() == check_fn,
            !r.changed(),
            !r.prev_changed(),
    {
        ValueObserver {
            prev_changed: false,
            changed: false,
            value,
            check_fn,
            component: core::marker::PhantomData,
        }
    }

    /// Starts a cycle: keeps the latest check result as the previous one,
    /// clears it, and samples the component's projected value.
    pub fn set(&mut self, component: &C)
        requires
            old(self).wf(),
        ensures
            old(self).set_by(component, *final(self)),
    {
        self.prev_changed = self.changed;
        self.changed = false;
        assert(call_requires(old(self).projection(), (component,)));
        self.value = (self.check_fn)(component);
    }

    /// Records whether the component's projected value differs from the
    /// sample, and returns that; the sample itself is kept.
    pub fn check(&mut self, component: &C) -> (r: bool)
        requires
            old(self).wf(),
        ensures
            old(self).checked_by(component, *final(self), r),
    {
        assert(call_requires(old(self).projection(), (component,)));
        let p = (self.check_fn)(component);
        self.changed = p != self.value;
        self.changed
    }

    /// The value sampled by the latest `set`.
    pub fn value(&self) -> (r: V)
        ensures
            r == self.snapshot(),
    {
        self.value
    }

    /// The check result of one cycle earlier.
    pub fn is_changed(&self) -> (r: bool)
        ensures
            r == self.prev_changed(),
    {
        self.prev_changed
    }
}

} // verus!
