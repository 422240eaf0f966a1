//! An unbounded sequence of growing waits, and the retry step built on it.
//!
//! Waits are counted in milliseconds. The `n`-th wait (from 1) is
//! `initial * factor^(n - 1)`, cut at `u64::MAX` where it would not fit.
use vstd::prelude::*;

use vstd::arithmetic::power::pow;

verus! {

/// The `n`-th wait, counting from 1, of a backoff that starts at `initial`
/// milliseconds and grows by `factor`, cut at `u64::MAX`.
pub open spec fn nth_wait(initial: u64, factor: u32, n: nat) -> nat {
    let exact = initial * pow(factor as int, (n - 1) as nat);
    if exact > u64::MAX {
        u64::MAX as nat
    } else {
        exact as nat
    }
}

/// The sum of the first `n` waits.
pub open spec fn total_wait(initial: u64, factor: u32, n: nat) -> nat
    decreases n,
{
    if n == 0 {
        0
    } else {
        total_wait(initial, factor, (n - 1) as nat) + nth_wait(initial, factor, n)
    }
}

/// A backoff as a mathematical value: its parameters, and how many waits it
/// has produced.
pub struct BackoffView {
    pub initial_wait_ms: u64,
    pub increasing_factor: u32,
    pub produced: nat,
}

/// A generator of growing waits: each call of `next` yields the following
/// one. The sequence never ends.
pub struct ExponentialBackoff {
    initial_wait_ms: u64,
    wait_ms: u64,
    increasing_factor: u32,
    started: bool,
    produced: Ghost<nat>,
}

/// What a retry loop does after an attempt.
#[derive(Clone, Copy, Debug, PartialEq, Eq, Structural)]
pub enum RetryDecision {
    /// The attempt succeeded: stop.
    Finished,
    /// The attempt failed: wait this many milliseconds, then try again.
    RetryAfter(u64),
}

impl View for ExponentialBackoff {
    type V = BackoffView;

    closed spec fn view(&self) -> BackoffView {
        BackoffView {
            initial_wait_ms: self.initial_wait_ms,
            increasing_factor: self.increasing_factor,
            produced: self.produced@,
        }
    }
}

/// A power of a nonnegative base is nonnegative.
proof fn lemma_pow_nonnegative(b: int, e: nat)
    requires
        b >= 0,
    ensures
        pow(b, e) >= 0,
    decreases e,
{
    reveal(pow);
    if e > 0 {
        lemma_pow_nonnegative(b, (e - 1) as nat);
        assert(b * pow(b, (e - 1) as nat) >= 0) by (nonlinear_arith)
            requires
                b >= 0,
                pow(b, (e - 1) as nat) >= 0,
        ;
    }
}

/// Each wait is the one before it times the factor, cut at `u64::MAX`.
proof fn lemma_next_wait(initial: u64, factor: u32, n: nat)
    requires
        n >= 1,
    ensures
        nth_wait(initial, factor, n + 1) == if nth_wait(initial, factor, n) * factor > u64::MAX {
            u64::MAX as int
        } else {
            nth_wait(initial, factor, n) * factor
        },
{
    reveal(pow);
    let p = pow(factor as int, (n - 1) as nat);
    assert(pow(factor as int, n) == factor * p);
    lemma_pow_nonnegative(factor as int, (n - 1) as nat);
    let e = initial * p;
    let max = u64::MAX as int;
    assert(e >= 0) by (nonlinear_arith)
        requires
            initial >= 0,
            p >= 0,
            e == initial * p,
    ;
    assert(initial * (factor * p) == e * factor) by (nonlinear_arith)
        requires
            e == initial * p,
    ;
    if e > max {
        if factor == 0 {
            assert(e * factor == 0) by (nonlinear_arith)
                requires
                    factor == 0,
            ;
        } else {
            assert(e * factor >= e) by (nonlinear_arith)
                requires
                    factor >= 1,
                    e >= 0,
            ;
            assert(max * factor >= max) by (nonlinear_arith)
                requires
                    factor >= 1,
                    max >= 0,
            ;
        }
    }
}

impl ExponentialBackoff {
    #[verifier::type_invariant]
    spec fn well_formed(self) -> bool {
        &&& self.started <==> self.produced@ > 0
        &&& self.started ==> self.wait_ms == nth_wait(
            self.initial_wait_ms,
            self.increasing_factor,
            self.produced@,
        )
    }

    /// A backoff whose first wait is `initial_wait_ms` milliseconds and
    /// whose every later wait is `increasing_factor` times the one before.
    pub fn new(initial_wait_ms: u64, increasing_factor: u32) -> (b: Self)
        ensures
            b@ == (BackoffView { initial_wait_ms, increasing_factor, produced: 0 }),
    {
        ExponentialBackoff {
            initial_wait_ms,
            wait_ms: 0,
            increasing_factor,
            started: false,
            produced: Ghost(0),
        }
    }

    /// The next wait of the sequence.
    pub fn next(&mut self) -> (w: u64)
        ensures
            w == nth_wait(old(self)@.initial_wait_ms, old(self)@.increasing_factor, old(self)@.produced + 1),
            final(self)@ == (BackoffView { produced: old(self)@.produced + 1, ..old(self)@ }),
    {
        proof {
            use_type_invariant(&*self);
        }
        let wait_ms = if !self.started {
            assert(nth_wait(self.initial_wait_ms, self.increasing_factor, 1) == self.initial_wait_ms)
                by {
                reveal(pow);
            }
            self.initial_wait_ms
        } else {
            proof {
                lemma_next_wait(self.initial_wait_ms, self.increasing_factor, self.produced@);
            }
            match self.wait_ms.checked_mul(self.increasing_factor as u64) {
                Some(w) => w,
                None => u64::MAX,
            }
        };
        *self = ExponentialBackoff {
            initial_wait_ms: self.initial_wait_ms,
            wait_ms,
            increasing_factor: self.increasing_factor,
            started: true,
            produced: Ghost(self.produced@ + 1),
        };
        wait_ms
    }

    /// The retry step: after a successful attempt the loop is finished;
    /// after a failed one it waits the next wait of the sequence and tries
    /// again.
    pub fn decide_retry(&mut self, succeeded: bool) -> (d: RetryDecision)
        ensures
            succeeded ==> d == RetryDecision::Finished && final(self)@ == old(self)@,
            !succeeded ==> d == RetryDecision::RetryAfter(
                nth_wait(
                    old(self)@.initial_wait_ms,
                    old(self)@.increasing_factor,
                    old(self)@.produced + 1,
                ) as u64,
            ) && final(self)@ == (BackoffView { produced: old(self)@.produced + 1, ..old(self)@ }),
    {
        if succeeded {
            RetryDecision::Finished
        } else {
            RetryDecision::RetryAfter(self.next())
        }
    }
}

impl Default for ExponentialBackoff {
    /// Waits of one second, doubling each time.
    fn default() -> (b: Self)
        ensures
            b@ == (BackoffView { initial_wait_ms: 1000, increasing_factor: 2, produced: 0 }),
    {
        ExponentialBackoff::new(1000, 2)
    }
}

/// A retry loop that meets two refusals before it succeeds has waited, in
/// all, at least the initial wait plus the initial wait times the factor.
pub proof fn lemma_two_refusals_wait(initial_wait_ms: u64, increasing_factor: u32)
    requires
        initial_wait_ms * increasing_factor <= u64::MAX,
    ensures
        total_wait(initial_wait_ms, increasing_factor, 2) >= initial_wait_ms + initial_wait_ms
            * increasing_factor,
{
    reveal(pow);
    assert(pow(increasing_factor as int, 0) == 1);
    assert(pow(increasing_factor as int, 1) == increasing_factor * pow(increasing_factor as int, 0));
    assert(nth_wait(initial_wait_ms, increasing_factor, 1) == initial_wait_ms);
    assert(nth_wait(initial_wait_ms, increasing_factor, 2) == initial_wait_ms * increasing_factor);
    assert(total_wait(initial_wait_ms, increasing_factor, 0) == 0);
    assert(total_wait(initial_wait_ms, increasing_factor, 1) == initial_wait_ms);
}

} // verus!
