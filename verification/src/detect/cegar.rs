//! Counterexample-guided refinement of an allowed-behaviour specification.
use vstd::prelude::*;
use crate::strmap::StrSet;

verus! {

/// A refinable specification of the calls one function may make.
pub struct CegarSpec {
    pub function_name: String,
    pub allowed: StrSet,
    pub violations: StrSet,
    pub iteration: u32,
    pub last_violation_iteration: u32,
}

/// Converged: no refinement yet, or no genuine violation in the last
/// `patience` refinements.
pub open spec fn converged(iteration: u32, last_violation: u32, patience: u32) -> bool {
    iteration == 0 || iteration - last_violation >= patience
}

impl CegarSpec {
    /// Iteration of the most recent genuine violation (0 if none).
    pub open spec fn last_violation(&self) -> u32 {
        self.last_violation_iteration
    }

    /// A specification for `function_name` with nothing allowed or violating yet.
    pub fn new(function_name: &str) -> (s: Self)
        ensures
            s.function_name@ == function_name@,
            s.allowed@ == Set::<Seq<char>>::empty(),
            s.violations@ == Set::<Seq<char>>::empty(),
            s.iteration == 0,
            s.last_violation() == 0,
            s.last_violation() <= s.iteration,
    {
        CegarSpec {
            function_name: String::from_str(function_name),
            allowed: StrSet::new(),
            violations: StrSet::new(),
            iteration: 0,
            last_violation_iteration: 0,
        }
    }

    /// One refinement step with a counterexample: a genuine one becomes a
    /// violation (and is no longer allowed) and marks this iteration; a
    /// spurious one becomes allowed.
    pub fn refine(&mut self, counterexample: &str, is_genuine: bool)
        requires
            old(self).iteration < u32::MAX,
        ensures
            final(self).iteration == old(self).iteration + 1,
            final(self).function_name == old(self).function_name,
            is_genuine ==> final(self).violations@ == old(self).violations@.insert(counterexample@)
                && final(self).allowed@ == old(self).allowed@.remove(counterexample@)
                && final(self).last_violation() == final(self).iteration,
            !is_genuine ==> final(self).allowed@ == old(self).allowed@.insert(counterexample@)
                && final(self).violations@ == old(self).violations@ && final(self).last_violation()
                == old(self).last_violation(),
            old(self).last_violation() <= old(self).iteration ==> final(self).last_violation()
                <= final(self).iteration,
    {
        self.iteration = self.iteration + 1;
        if is_genuine {
            self.violations.insert(String::from_str(counterexample));
            self.allowed.remove(counterexample);
            self.last_violation_iteration = self.iteration;
        } else {
            self.allowed.insert(String::from_str(counterexample));
        }
    }

    /// Whether refinement has settled: nothing refined yet, or no genuine
    /// violation in the last `patience` iterations.
    pub fn is_converged(&self, patience: u32) -> (b: bool)
        requires
            self.last_violation() <= self.iteration,
        ensures
            b == converged(self.iteration, self.last_violation(), patience),
    {
        if self.iteration == 0 {
            return true;
        }
        self.iteration - self.last_violation_iteration >= patience
    }
}

/// A genuine counterexample is never both allowed and a violation right after
/// it is refined.
pub proof fn law_genuine_not_allowed(allowed: Set<Seq<char>>, c: Seq<char>)
    ensures
        !allowed.remove(c).contains(c),
{
}

} // verus!
