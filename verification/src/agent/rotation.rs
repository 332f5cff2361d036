//! Strategy rotation policy: after enough stalled iterations, move on to the
//! next strategy in round-robin order.
use vstd::prelude::*;

verus! {

/// Policy governing when and how to rotate between exploration strategies.
#[derive(Debug)]
pub struct RotationPolicy {
    strategies: Vec<String>,
    current_index: usize,
    stall_threshold: u64,
}

impl RotationPolicy {
    /// The active position lies inside the strategy list (or the list is empty).
    pub closed spec fn wf(&self) -> bool {
        self.strategies@.len() == 0 || self.current_index < self.strategies@.len()
    }

    /// Strategy names, in rotation order.
    pub closed spec fn names(&self) -> Seq<Seq<char>> {
        self.strategies@.map_values(|s: String| s@)
    }

    /// Position of the active strategy.
    pub closed spec fn index(&self) -> nat {
        self.current_index as nat
    }

    /// Stalled iterations that warrant a rotation.
    pub closed spec fn threshold(&self) -> u64 {
        self.stall_threshold
    }

    /// A policy over `strategies` starting with the first, threshold 5.
    pub fn new(strategies: Vec<String>) -> (p: Self)
        ensures
            p.names() == strategies@.map_values(|s: String| s@),
            p.index() == 0,
            p.threshold() == 5,
            p.wf(),
    {
        RotationPolicy { strategies, current_index: 0, stall_threshold: 5 }
    }

    /// Name of the active strategy.
    pub fn current(&self) -> (s: &str)
        requires
            self.wf(),
            self.names().len() > 0,
        ensures
            s@ == self.names()[self.index() as int],
    {
        proof {
            assert(self.names()[self.index() as int] == self.strategies@[self.current_index as int]@);
        }
        self.strategies[self.current_index].as_str()
    }

    /// Moves to the next strategy, wrapping around after the last.
    pub fn rotate(&mut self)
        requires
            old(self).wf(),
            old(self).names().len() > 0,
        ensures
            final(self).wf(),
            final(self).index() == (old(self).index() + 1) % old(self).names().len(),
            final(self).names() == old(self).names(),
            final(self).threshold() == old(self).threshold(),
    {
        let n = self.strategies.len();
        assert(n == old(self).names().len());
        let next = if self.current_index + 1 == n { 0 } else { self.current_index + 1 };
        proof {
            if self.current_index + 1 == n {
                vstd::arithmetic::div_mod::lemma_mod_self_0(n as int);
            } else {
                vstd::arithmetic::div_mod::lemma_small_mod((self.current_index + 1) as nat, n as nat);
            }
        }
        assert(self.current_index < n);
        assert(next < self.strategies@.len());
        self.current_index = next;
    }

    /// Whether `stall_iterations` stalled iterations warrant a rotation.
    pub fn should_rotate(&self, stall_iterations: u64) -> (b: bool)
        ensures
            b == (stall_iterations >= self.threshold()),
    {
        stall_iterations >= self.stall_threshold
    }

    /// Sets the number of stalled iterations that warrant a rotation.
    pub fn set_stall_threshold(&mut self, threshold: u64)
        ensures
            final(self).threshold() == threshold,
            final(self).names() == old(self).names(),
            final(self).index() == old(self).index(),
            final(self).wf() == old(self).wf(),
    {
        self.stall_threshold = threshold;
    }
}

/// Rotating `k` times from position `i` over `n` strategies lands on
/// `(i + k) % n`; in particular `n` rotations return to the start.
pub open spec fn rotate_times(i: nat, n: nat, k: nat) -> nat
    decreases k,
{
    if k == 0 {
        i
    } else {
        (rotate_times(i, n, (k - 1) as nat) + 1) % n
    }
}

/// Rotation is round robin: `k` rotations from `i` give `(i + k) % n`.
pub proof fn law_rotation_round_robin(i: nat, n: nat, k: nat)
    requires
        n > 0,
        i < n,
    ensures
        rotate_times(i, n, k) == (i + k) % n,
    decreases k,
{
    if k == 0 {
        vstd::arithmetic::div_mod::lemma_small_mod(i, n);
    } else {
        law_rotation_round_robin(i, n, (k - 1) as nat);
        let j = (i + k - 1) as nat;
        assert((j % n + 1) % n == (j + 1) % n) by {
            vstd::arithmetic::div_mod::lemma_add_mod_noop(j as int, 1, n as int);
            if n > 1 {
                vstd::arithmetic::div_mod::lemma_small_mod(1, n);
            } else {
                assert((j % n + 1) % n == 0);
                assert((j + 1) % n == 0);
            }
        }
    }
}

} // verus!
