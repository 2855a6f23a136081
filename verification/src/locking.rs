//! The lock order.
//!
//! Callers block on the store-level lock and on the locks of the indexes
//! without timeout, so a deadlock is possible exactly when two callers
//! take the same two locks in opposite orders. The order is therefore
//! fixed: the store-level lock is taken before the lock of an index, never
//! after it. A ledger records what a caller holds and admits only
//! acquisitions that keep the order.
use vstd::prelude::*;

verus! {

/// The locks, in the order in which they may be taken.
#[derive(Clone, Copy, Debug, PartialEq, Eq, Structural)]
pub enum LockLevel {
    /// The store-level lock.
    Store,
    /// The lock of an index: the connection index, the name index, the
    /// tables of scores.
    Index,
}

impl LockLevel {
    /// Position in the lock order.
    pub open spec fn rank(self) -> int {
        match self {
            LockLevel::Store => 0,
            LockLevel::Index => 1,
        }
    }

    /// Position in the lock order.
    pub fn position(&self) -> (r: u8)
        ensures
            r == self.rank(),
    {
        match self {
            LockLevel::Store => 0,
            LockLevel::Index => 1,
        }
    }
}

/// The locks that were taken, in the order of taking, follow the lock
/// order strictly.
pub open spec fn ordered(held: Seq<LockLevel>) -> bool {
    forall|i: int, j: int|
        0 <= i < j < held.len() ==> (#[trigger] held[i]).rank() < (#[trigger] held[j]).rank()
}

/// Whether a caller that holds `held` may take `level`: every lock it
/// holds comes before `level` in the lock order.
pub open spec fn admissible(held: Seq<LockLevel>, level: LockLevel) -> bool {
    forall|i: int| 0 <= i < held.len() ==> (#[trigger] held[i]).rank() < level.rank()
}

/// What one caller holds.
pub struct LockLedger {
    held: Vec<LockLevel>,
}

impl LockLedger {
    /// The locks held, in the order in which they were taken.
    pub closed spec fn view(&self) -> Seq<LockLevel> {
        self.held@
    }

    /// The locks held follow the lock order.
    pub open spec fn well_formed(&self) -> bool {
        ordered(self@)
    }

    /// A ledger of a caller that holds nothing.
    pub fn new() -> (r: LockLedger)
        ensures
            r@.len() == 0,
            r.well_formed(),
    {
        LockLedger { held: Vec::new() }
    }

    /// Number of locks held.
    pub fn depth(&self) -> (r: usize)
        ensures
            r == self@.len(),
    {
        self.held.len()
    }

    /// Whether the caller may take `level` now.
    pub fn may_acquire(&self, level: LockLevel) -> (r: bool)
        requires
            self.well_formed(),
        ensures
            r == admissible(self@, level),
    {
        let n: usize = self.held.len();
        if n == 0 {
            true
        } else {
            let last: LockLevel = self.held[n - 1];
            proof {
                if last.rank() < level.rank() {
                    assert forall|i: int| 0 <= i < self@.len() implies (#[trigger] self@[i]).rank()
                        < level.rank() by {
                        if i < n - 1 {
                            assert(self@[i].rank() < self@[n - 1].rank());
                        }
                    }
                } else {
                    assert(self@[n - 1].rank() >= level.rank());
                }
            }
            last.position() < level.position()
        }
    }

    /// Records that `level` is taken, if the lock order admits it, and
    /// tells whether it did. A refused acquisition leaves the ledger as it
    /// is: the caller must not take the lock.
    pub fn acquire(&mut self, level: LockLevel) -> (r: bool)
        requires
            old(self).well_formed(),
        ensures
            final(self).well_formed(),
            r == admissible(old(self)@, level),
            r ==> final(self)@ == old(self)@.push(level),
            !r ==> final(self)@ == old(self)@,
    {
        if self.may_acquire(level) {
            self.held.push(level);
            true
        } else {
            false
        }
    }

    /// Records that the lock taken last is released, and returns it.
    pub fn release(&mut self) -> (r: Option<LockLevel>)
        requires
            old(self).well_formed(),
        ensures
            final(self).well_formed(),
            match r {
                Some(level) => old(self)@.len() > 0 && level == old(self)@.last() && final(self)@
                    == old(self)@.drop_last(),
                None => old(self)@.len() == 0 && final(self)@ == old(self)@,
            },
    {
        self.held.pop()
    }
}

/// The order is never reversed: a caller that holds the lock of an index
/// is refused the store-level lock, and no caller holds more locks than
/// there are levels.
pub proof fn lemma_order_is_never_reversed(held: Seq<LockLevel>)
    requires
        ordered(held),
    ensures
        held.contains(LockLevel::Index) ==> !admissible(held, LockLevel::Store),
        !admissible(held, LockLevel::Store) || held.len() == 0,
        held.len() <= 2,
        forall|i: int, j: int|
            0 <= i < held.len() && 0 <= j < held.len() && held[i] == LockLevel::Store && held[j]
                == LockLevel::Index ==> i < j,
{
    if held.contains(LockLevel::Index) {
        let i = choose|i: int| 0 <= i < held.len() && held[i] == LockLevel::Index;
        assert(held[i].rank() >= LockLevel::Store.rank());
    }
    if held.len() > 0 {
        assert(held[0].rank() >= LockLevel::Store.rank());
    }
    if held.len() > 2 {
        assert(held[0].rank() < held[1].rank());
        assert(held[1].rank() < held[2].rank());
    }
    assert forall|i: int, j: int|
        0 <= i < held.len() && 0 <= j < held.len() && held[i] == LockLevel::Store && held[j]
            == LockLevel::Index implies i < j by {
        if j < i {
            assert(held[j].rank() < held[i].rank());
        }
    }
}

} // verus!
