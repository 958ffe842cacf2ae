//! A memoised lazily-computed value: it is created with a factory closure,
//! which runs at most once, on first access; the value can also be installed
//! directly, in which case the factory never runs.

use vstd::prelude::*;

verus! {

/// A type that can produce a prototypical value of an associated type.
pub trait Prototype {
    type Proto;

    fn getPrototype(&self) -> Self::Proto;
}

/// A value of type `T` computed on demand by a factory closure.
///
/// Until the first access the value is absent and the factory is held; the
/// first access consumes the factory and stores its result.  Installing a
/// value with [`set_virtual`] drops the factory unused.
pub struct LifetimeVirtual<T, F> {
    factory: Option<F>,
    val: Option<T>,
}

impl<T, F: FnOnce() -> T> LifetimeVirtual<T, F> {
    /// The stored factory, if it has not yet been consumed or discarded.
    pub closed spec fn spec_factory(&self) -> Option<F> {
        self.factory
    }

    /// Whether the value has been computed or installed.
    pub open spec fn is_set(&self) -> bool {
        self.spec_value() is Some
    }

    /// The stored value, if any.
    pub closed spec fn spec_value(&self) -> Option<T> {
        self.val
    }

    /// Well-formed when a held factory can be called without preconditions.
    pub open spec fn wf(&self) -> bool {
        match self.spec_factory() {
            Some(f) => call_requires(f, ()),
            None => self.is_set(),
        }
    }

    /// Creates an unset lazy value holding `factory`.
    pub fn new(factory: F) -> (r: Self)
        requires
            call_requires(factory, ()),
        ensures
            r.wf(),
            !r.is_set(),
            r.spec_factory() == Some(factory),
    {
        LifetimeVirtual { factory: Some(factory), val: None }
    }

    /// Returns the value, running the factory first if no value is stored yet.
    pub fn force(&mut self) -> (r: &T)
        requires
            old(self).wf(),
        ensures
            final(self).wf(),
            final(self).is_set(),
            Some(*r) == final(self).spec_value(),
            old(self).is_set() ==> *final(self) == *old(self),
            !old(self).is_set() ==> call_ensures(
                old(self).spec_factory()->Some_0,
                (),
                final(self).spec_value()->Some_0,
            ),
    {
        if self.val.is_none() {
            let f = self.factory.take().unwrap();
            self.val = Some(f());
        }
        self.val.as_ref().unwrap()
    }

    /// Returns mutable access to the value, running the factory first if
    /// no value is stored yet.
    pub fn force_mut(&mut self) -> (r: &mut T)
        requires
            old(self).wf(),
        ensures
            final(self).wf(),
            final(self).is_set(),
            final(self).spec_value() == Some(*final(r)),
            old(self).is_set() ==> *r == old(self).spec_value()->Some_0,
            !old(self).is_set() ==> call_ensures(old(self).spec_factory()->Some_0, (), *r),
    {
        if self.val.is_none() {
            let f = self.factory.take().unwrap();
            self.val = Some(f());
        }
        self.val.as_mut().unwrap()
    }
}

/// Installs `val` directly, discarding any pending factory so it never runs.
pub fn set_virtual<T, F: FnOnce() -> T>(virt: &mut LifetimeVirtual<T, F>, val: T)
    ensures
        final(virt).wf(),
        final(virt).is_set(),
        final(virt).spec_value() == Some(val),
        final(virt).spec_factory() is None,
{
    virt.factory = None;
    virt.val = Some(val);
}

} // verus!
