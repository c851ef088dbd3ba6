//! Run-time borrow tracking for host objects: any number of shared borrows,
//! or one exclusive borrow.
use vstd::prelude::*;

verus! {

/// Why a borrow was refused.
#[derive(Clone, Copy, Debug, PartialEq, Eq, Structural)]
pub enum AccessError {
    /// The object is borrowed in a way that excludes the requested borrow.
    BorrowConflict,
    /// The count of shared borrows would overflow.
    TooManyBorrows,
}

/// The borrow state of one object.
#[derive(Clone, Copy, Debug, PartialEq, Eq, Structural)]
pub enum AccessState {
    /// Not borrowed.
    Idle,
    /// Borrowed `n` times, `n > 0`, for reading.
    Shared(usize),
    /// Borrowed once for writing.
    Exclusive,
}

/// What a request for a shared borrow answers in state `s`.
pub open spec fn shared_result(s: AccessState) -> Result<(), AccessError> {
    match s {
        AccessState::Idle => Ok(()),
        AccessState::Shared(n) => if n < usize::MAX {
            Ok(())
        } else {
            Err(AccessError::TooManyBorrows)
        },
        AccessState::Exclusive => Err(AccessError::BorrowConflict),
    }
}

/// The state after a request for a shared borrow in state `s`.
pub open spec fn after_shared(s: AccessState) -> AccessState {
    match s {
        AccessState::Idle => AccessState::Shared(1),
        AccessState::Shared(n) => if n < usize::MAX {
            AccessState::Shared((n + 1) as usize)
        } else {
            s
        },
        AccessState::Exclusive => s,
    }
}

/// What a request for the exclusive borrow answers in state `s`.
pub open spec fn exclusive_result(s: AccessState) -> Result<(), AccessError> {
    match s {
        AccessState::Idle => Ok(()),
        _ => Err(AccessError::BorrowConflict),
    }
}

/// The state after a request for the exclusive borrow in state `s`.
pub open spec fn after_exclusive(s: AccessState) -> AccessState {
    match s {
        AccessState::Idle => AccessState::Exclusive,
        _ => s,
    }
}

/// A borrow counter.
pub struct Access {
    state: AccessState,
}

impl Access {
    pub closed spec fn state(&self) -> AccessState {
        self.state
    }

    /// The counter's invariant: a shared count is never zero.
    pub open spec fn wf(&self) -> bool {
        self.state() matches AccessState::Shared(n) ==> n > 0
    }

    /// A counter with no borrow.
    pub fn new() -> (r: Self)
        ensures
            r.wf(),
            r.state() == AccessState::Idle,
    {
        Access { state: AccessState::Idle }
    }

    /// The current state.
    pub fn get(&self) -> (r: AccessState)
        ensures
            r == self.state(),
    {
        self.state
    }

    /// Takes a shared borrow: refused while an exclusive one is held.
    pub fn try_shared(&mut self) -> (r: Result<(), AccessError>)
        requires
            old(self).wf(),
        ensures
            final(self).wf(),
            r == shared_result(old(self).state()),
            final(self).state() == after_shared(old(self).state()),
    {
        match self.state {
            AccessState::Idle => {
                self.state = AccessState::Shared(1);
                Ok(())
            },
            AccessState::Shared(n) => {
                if n == usize::MAX {
                    return Err(AccessError::TooManyBorrows);
                }
                self.state = AccessState::Shared(n + 1);
                Ok(())
            },
            AccessState::Exclusive => Err(AccessError::BorrowConflict),
        }
    }

    /// Takes the exclusive borrow: granted only when the object is idle.
    pub fn try_exclusive(&mut self) -> (r: Result<(), AccessError>)
        requires
            old(self).wf(),
        ensures
            final(self).wf(),
            r == exclusive_result(old(self).state()),
            final(self).state() == after_exclusive(old(self).state()),
    {
        match self.state {
            AccessState::Idle => {
                self.state = AccessState::Exclusive;
                Ok(())
            },
            _ => Err(AccessError::BorrowConflict),
        }
    }

    /// Gives back one shared borrow.
    pub fn release_shared(&mut self)
        requires
            old(self).wf(),
            old(self).state() is Shared,
        ensures
            final(self).wf(),
            old(self).state() == AccessState::Shared(1) ==> final(self).state() == AccessState::Idle,
            old(self).state() matches AccessState::Shared(n) ==> (n > 1 ==> final(self).state()
                == AccessState::Shared((n - 1) as usize)),
    {
        match self.state {
            AccessState::Shared(n) => {
                if n == 1 {
                    self.state = AccessState::Idle;
                } else {
                    self.state = AccessState::Shared(n - 1);
                }
            },
            _ => {},
        }
    }

    /// Gives back the exclusive borrow.
    pub fn release_exclusive(&mut self)
        requires
            old(self).wf(),
            old(self).state() == AccessState::Exclusive,
        ensures
            final(self).wf(),
            final(self).state() == AccessState::Idle,
    {
        self.state = AccessState::Idle;
    }
}

/// While a shared borrow is held, a request for the exclusive borrow is
/// refused with `BorrowConflict` and leaves the state as it was, however
/// many shared borrows are taken.
pub proof fn lemma_shared_excludes_exclusive(s: AccessState)
    requires
        shared_result(s) is Ok,
    ensures
        exclusive_result(after_shared(s)) == Err::<(), AccessError>(AccessError::BorrowConflict),
        after_exclusive(after_shared(s)) == after_shared(s),
        after_shared(s) is Shared,
{
}

} // verus!
