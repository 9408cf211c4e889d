//! Resource cells: static storage shared by tasks, each bound to a ceiling
//! priority. A task may touch the payload only while its effective
//! priority stands at or above the ceiling — `Kernel::acquire` raises it
//! there — which makes every critical section atomic with respect to every
//! other task that could contend for the cell.

use vstd::prelude::*;

verus! {

/// A shared storage location with its ceiling priority: the highest
/// priority among the tasks that may access it, computed at configuration
/// time.
pub struct ResourceCell<T> {
    ceiling: u8,
    value: T,
}

impl<T> ResourceCell<T> {
    pub closed spec fn ceiling_spec(self) -> u8 {
        self.ceiling
    }

    pub closed spec fn value_spec(self) -> T {
        self.value
    }

    pub fn new(ceiling: u8, value: T) -> (c: ResourceCell<T>)
        ensures
            c.ceiling_spec() == ceiling,
            c.value_spec() == value,
    {
        ResourceCell { ceiling, value }
    }

    pub fn ceiling(&self) -> (c: u8)
        ensures
            c == self.ceiling_spec(),
    {
        self.ceiling
    }

    /// Read the payload inside a critical section. The caller passes the
    /// processor's current effective priority, raised to the ceiling by
    /// the matching `Kernel::acquire`.
    pub fn borrow_locked(&self, eff: u8) -> (r: &T)
        requires
            eff >= self.ceiling_spec(),
        ensures
            *r == self.value_spec(),
    {
        &self.value
    }

    /// Take the payload out for a multi-step update inside a critical
    /// section, leaving a replacement; the matching put is another call.
    pub fn replace_locked(&mut self, eff: u8, new: T) -> (r: T)
        requires
            eff >= old(self).ceiling_spec(),
        ensures
            r == old(self).value_spec(),
            final(self).value_spec() == new,
            final(self).ceiling_spec() == old(self).ceiling_spec(),
    {
        let mut tmp = new;
        core::mem::swap(&mut self.value, &mut tmp);
        tmp
    }
}

/// The ceiling of a cell: the highest static priority among the tasks
/// that access it, 0 for a cell nothing accesses.
pub fn ceiling_of(priorities: &Vec<u8>, accessors: &Vec<usize>) -> (c: u8)
    requires
        forall|i: int| 0 <= i < accessors@.len() ==> (#[trigger] accessors@[i]) < priorities@.len(),
    ensures
        forall|i: int| 0 <= i < accessors@.len()
            ==> priorities@[(#[trigger] accessors@[i]) as int] <= c,
        accessors@.len() == 0 ==> c == 0,
        accessors@.len() > 0 ==> exists|i: int| 0 <= i < accessors@.len()
            && priorities@[(#[trigger] accessors@[i]) as int] == c,
{
    let n = accessors.len();
    let mut c: u8 = 0;
    let mut i: usize = 0;
    while i < n
        invariant
            n == accessors@.len(),
            i <= n,
            forall|k: int| 0 <= k < accessors@.len() ==> (#[trigger] accessors@[k]) < priorities@.len(),
            forall|k: int| 0 <= k < i ==> priorities@[(#[trigger] accessors@[k]) as int] <= c,
            i == 0 ==> c == 0,
            i > 0 ==> exists|k: int| 0 <= k < i
                && priorities@[(#[trigger] accessors@[k]) as int] == c,
        decreases n - i,
    {
        let p = priorities[accessors[i]];
        if p > c || i == 0 {
            c = p;
        }
        proof {
            if priorities@[accessors@[i as int] as int] == c {
                assert(exists|k: int| 0 <= k < i + 1
                    && priorities@[(#[trigger] accessors@[k]) as int] == c);
            }
        }
        i = i + 1;
    }
    c
}

} // verus!
