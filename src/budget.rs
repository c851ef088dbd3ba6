//! Instruction budgets: a counter that each executed instruction draws from.
use vstd::prelude::*;

verus! {

/// The value that marks a budget without limit.
pub const UNLIMITED: usize = usize::MAX;

/// A value that runs under a fixed budget.
pub struct Budget<T> {
    budget: usize,
    value: T,
}

/// Wraps `value` so that it runs under `budget` instructions.
pub fn with<T>(budget: usize, value: T) -> (r: Budget<T>)
    ensures
        r.budget() == budget,
        r.value() == value,
{
    Budget { budget, value }
}

/// A guard over the budget that is currently in force.
pub struct BudgetGuard(usize);

/// Installs a budget of `budget` instructions.
pub fn replace(budget: usize) -> (r: BudgetGuard)
    ensures
        r.remaining() == budget,
{
    BudgetGuard(budget)
}

/// Installs an unlimited budget.
pub fn acquire() -> (r: BudgetGuard)
    ensures
        r.remaining() == UNLIMITED,
        r.is_unlimited(),
{
    BudgetGuard(UNLIMITED)
}

/// What is left of a budget `b` after one draw.
pub open spec fn after_take(b: usize) -> usize {
    if b == UNLIMITED || b == 0 {
        b
    } else {
        (b - 1) as usize
    }
}

/// Whether a draw from a budget `b` is granted.
pub open spec fn take_granted(b: usize) -> bool {
    b != 0
}

/// What is left of a budget `b` after `n` draws (a refused draw leaves it at zero).
pub open spec fn after_takes(b: usize, n: nat) -> usize
    decreases n,
{
    if n == 0 {
        b
    } else {
        after_takes(after_take(b), (n - 1) as nat)
    }
}

impl<T> Budget<T> {
    pub closed spec fn budget(&self) -> usize {
        self.budget
    }

    pub closed spec fn value(&self) -> T {
        self.value
    }

    /// Hands out the guard that governs the wrapped value, and the value.
    pub fn call(self) -> (r: (BudgetGuard, T))
        ensures
            r.0.remaining() == self.budget(),
            r.1 == self.value(),
    {
        (BudgetGuard(self.budget), self.value)
    }
}

impl BudgetGuard {
    pub closed spec fn remaining(&self) -> usize {
        self.0
    }

    pub open spec fn is_unlimited(&self) -> bool {
        self.remaining() == UNLIMITED
    }

    /// Draws one unit; returns `false`, leaving the budget at zero, once it is spent.
    pub fn take(&mut self) -> (r: bool)
        ensures
            r == take_granted(old(self).remaining()),
            final(self).remaining() == after_take(old(self).remaining()),
    {
        if self.0 == UNLIMITED {
            return true;
        }
        if self.0 == 0 {
            return false;
        }
        self.0 -= 1;
        true
    }

    /// The budget that is left.
    pub fn get(&self) -> (r: usize)
        ensures
            r == self.remaining(),
    {
        self.0
    }
}

/// A budget of `n` grants exactly `n` draws: after `k < n` draws it is
/// `n - k`, and after `n` draws it is spent.
pub proof fn lemma_budget_grants_exactly(n: usize, k: nat)
    requires
        n != UNLIMITED,
        k <= n,
    ensures
        after_takes(n, k) == n - k,
    decreases k,
{
    if k > 0 {
        lemma_budget_grants_exactly((n - 1) as usize, (k - 1) as nat);
    }
}

} // verus!
