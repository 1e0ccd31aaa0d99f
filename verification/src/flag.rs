//! Flags that several threads share.
//!
//! What such a flag holds at a given time is up to all threads that can reach
//! it, so the contracts speak of what is done to it: what it was made with,
//! which flag a read or a store is of, what was found or stored, and in which
//! memory order. A read and a store each leave a value behind that only doing
//! them can make.

use std::sync::atomic::{AtomicBool, Ordering};
use vstd::prelude::*;

verus! {

/// A flag that several threads share.
pub struct SharedFlag {
    flag: AtomicBool,
    made: Ghost<bool>,
}

impl SharedFlag {
    pub closed spec fn atomic(self) -> AtomicBool {
        self.flag
    }

    /// What the flag held when it was made.
    pub closed spec fn made_with(self) -> bool {
        self.made@
    }
}

/// What one read of a shared flag found. There is no way to get one but to read
/// the flag.
pub struct FlagReading {
    flag: Ghost<SharedFlag>,
    seq_cst: Ghost<bool>,
    used: Ghost<bool>,
    found: bool,
}

impl FlagReading {
    /// The flag that was read.
    pub closed spec fn flag(self) -> SharedFlag {
        self.flag@
    }

    /// Whether the read was sequentially consistent; otherwise it was relaxed.
    pub closed spec fn seq_cst(self) -> bool {
        self.seq_cst@
    }

    /// Whether something that one reading allows once has been done on it.
    pub closed spec fn used(self) -> bool {
        self.used@
    }

    /// Whether the flag was found set.
    pub closed spec fn set(self) -> bool {
        self.found
    }

    pub fn is_set(&self) -> (r: bool)
        ensures
            r == self.set(),
        opens_invariants none
        no_unwind
    {
        self.found
    }

    /// The reading, used up.
    pub(crate) fn use_up(self) -> (r: Self)
        requires
            !self.used(),
        ensures
            r.flag() == self.flag(),
            r.seq_cst() == self.seq_cst(),
            r.set() == self.set(),
            r.used(),
        opens_invariants none
        no_unwind
    {
        FlagReading {
            flag: self.flag,
            seq_cst: self.seq_cst,
            used: Ghost(true),
            found: self.found,
        }
    }
}

/// Stands for one store to a shared flag. There is no way to get one but to
/// store to the flag.
pub struct FlagStore {
    flag: Ghost<SharedFlag>,
    seq_cst: Ghost<bool>,
    value: Ghost<bool>,
}

impl FlagStore {
    /// The flag that was stored to.
    pub closed spec fn flag(self) -> SharedFlag {
        self.flag@
    }

    /// Whether the store was sequentially consistent; otherwise it was relaxed.
    pub closed spec fn seq_cst(self) -> bool {
        self.seq_cst@
    }

    /// What was stored.
    pub closed spec fn value(self) -> bool {
        self.value@
    }
}

/// What a flag holds after the stores to it, in the order in which they took
/// effect.
pub open spec fn held_after(flag: SharedFlag, stores: Seq<FlagStore>) -> bool {
    if stores.len() == 0 {
        flag.made_with()
    } else {
        stores.last().value()
    }
}

/// A flag that holds `value`.
pub(crate) fn new_flag(value: bool) -> (r: SharedFlag)
    ensures
        r.made_with() == value,
        call_ensures(AtomicBool::new, (value,), r.atomic()),
{
    SharedFlag { flag: AtomicBool::new(value), made: Ghost(value) }
}

/// `AtomicBool::load`: the reading is of this flag, in this order. What it found
/// is what some thread last stored, so nothing is promised of that. The orders
/// that are for stores only, on which it panics, are left out. It does not
/// unwind, which dropping a file relies on and the specification in vstd leaves
/// open.
#[verifier::external_body]
pub(crate) fn load_flag(flag: &SharedFlag, order: Ordering) -> (r: FlagReading)
    requires
        order == Ordering::Relaxed || order == Ordering::SeqCst,
    ensures
        r.flag() == *flag,
        r.seq_cst() == (order == Ordering::SeqCst),
        !r.used(),
        call_ensures(AtomicBool::load, (&flag.atomic(), order), r.set()),
    opens_invariants none
    no_unwind
{
    FlagReading {
        flag: Ghost(*flag),
        seq_cst: Ghost(order == Ordering::SeqCst),
        used: Ghost(false),
        found: flag.flag.load(order),
    }
}

/// Stores this value to this flag, in this order. The orders that are for loads
/// only, on which the store panics, are left out. How long the flag holds the
/// value is up to the other threads, so nothing is said of that.
pub(crate) fn store_flag(flag: &SharedFlag, value: bool, order: Ordering) -> (r: FlagStore)
    requires
        order == Ordering::Relaxed || order == Ordering::SeqCst,
    ensures
        r.flag() == *flag,
        r.value() == value,
        r.seq_cst() == (order == Ordering::SeqCst),
        call_ensures(AtomicBool::store, (&flag.atomic(), value, order), ()),
{
    flag.flag.store(value, order);
    FlagStore {
        flag: Ghost(*flag),
        seq_cst: Ghost(order == Ordering::SeqCst),
        value: Ghost(value),
    }
}

/// A flag that is made unset, and that can be set and not be unset again.
pub struct Latch {
    flag: SharedFlag,
}

impl Latch {
    /// The flag.
    pub closed spec fn flag(self) -> SharedFlag {
        self.flag
    }

    pub(crate) fn new() -> (r: Self)
        ensures
            !r.flag().made_with(),
    {
        Latch { flag: new_flag(false) }
    }

    /// Sets the flag.
    pub(crate) fn set(&self) -> (r: FlagStore)
        ensures
            r.flag() == self.flag(),
            r.value(),
            r.seq_cst(),
    {
        store_flag(&self.flag, true, Ordering::SeqCst)
    }

    /// Looks whether the flag is set.
    pub(crate) fn look(&self) -> (r: FlagReading)
        ensures
            r.flag() == self.flag(),
            r.seq_cst(),
            !r.used(),
        opens_invariants none
        no_unwind
    {
        load_flag(&self.flag, Ordering::SeqCst)
    }
}

} // verus!
