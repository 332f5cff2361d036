//! Mining of allowed-call specifications from execution traces.
use vstd::prelude::*;
use crate::strmap::{StrMap, StrSet};

verus! {

/// Every call that occurs in some trace.
pub open spec fn calls_in(traces: Seq<Vec<String>>) -> Set<Seq<char>> {
    Set::new(
        |c: Seq<char>|
            exists|i: int, j: int|
                0 <= i < traces.len() && 0 <= j < traces[i]@.len() && traces[i]@[j]@ == c,
    )
}

/// The calls of `trace` outside `allowed`, in order.
pub open spec fn outside(trace: Seq<String>, allowed: Set<Seq<char>>) -> Seq<Seq<char>>
    decreases trace.len(),
{
    if trace.len() == 0 {
        Seq::empty()
    } else {
        let rest = outside(trace.drop_last(), allowed);
        if allowed.contains(trace.last()@) {
            rest
        } else {
            rest.push(trace.last()@)
        }
    }
}

/// The calls a function was seen to make.
pub struct SyscallSpec {
    pub function_name: String,
    pub allowed_calls: StrSet,
}

impl SyscallSpec {
    /// A specification with nothing allowed.
    pub fn new(function_name: &str) -> (s: Self)
        ensures
            s.function_name@ == function_name@,
            s.allowed_calls@ == Set::<Seq<char>>::empty(),
    {
        SyscallSpec { function_name: String::from_str(function_name), allowed_calls: StrSet::new() }
    }

    /// A specification allowing exactly the calls seen in `traces`.
    pub fn learn(function_name: &str, traces: &[Vec<String>]) -> (s: Self)
        ensures
            s.function_name@ == function_name@,
            s.allowed_calls@ == calls_in(traces@),
    {
        let mut allowed = StrSet::new();
        let mut i: usize = 0;
        while i < traces.len()
            invariant
                i <= traces@.len(),
                allowed@ == calls_in(traces@.take(i as int)),
            decreases traces@.len() - i,
        {
            let trace = &traces[i];
            let mut j: usize = 0;
            while j < trace.len()
                invariant
                    i < traces@.len(),
                    *trace == traces@[i as int],
                    j <= trace@.len(),
                    allowed@ == calls_in(traces@.take(i as int)).union(
                        Set::new(|c: Seq<char>| exists|t: int| 0 <= t < j && trace@[t]@ == c),
                    ),
                decreases trace@.len() - j,
            {
                allowed.insert(trace[j].clone());
                proof {
                    assert forall|c: Seq<char>| #[trigger] allowed@.contains(c) == calls_in(traces@.take(i as int)).union(
                        Set::new(|c: Seq<char>| exists|t: int| 0 <= t < j + 1 && trace@[t]@ == c),
                    ).contains(c) by {
                        if c == trace@[j as int]@ {
                            assert(exists|t: int| 0 <= t < j + 1 && trace@[t]@ == c);
                        }
                        if exists|t: int| 0 <= t < j + 1 && trace@[t]@ == c {
                            let t = choose|t: int| 0 <= t < j + 1 && trace@[t]@ == c;
                            if t < j {
                                assert(exists|t: int| 0 <= t < j && trace@[t]@ == c);
                            }
                        }
                    }
                    assert(allowed@ =~= calls_in(traces@.take(i as int)).union(
                        Set::new(|c: Seq<char>| exists|t: int| 0 <= t < j + 1 && trace@[t]@ == c),
                    ));
                }
                j = j + 1;
            }
            proof {
                let pre = traces@.take(i as int);
                let post = traces@.take(i + 1);
                assert forall|c: Seq<char>| #[trigger] calls_in(post).contains(c) == allowed@.contains(c) by {
                    if calls_in(post).contains(c) {
                        let (a, b) = choose|a: int, b: int| 0 <= a < post.len() && 0 <= b < post[a]@.len() && post[a]@[b]@ == c;
                        if a < i {
                            assert(pre[a] == post[a]);
                            assert(calls_in(pre).contains(c));
                        } else {
                            assert(exists|t: int| 0 <= t < j && trace@[t]@ == c);
                        }
                    }
                    if calls_in(pre).contains(c) {
                        let (a, b) = choose|a: int, b: int| 0 <= a < pre.len() && 0 <= b < pre[a]@.len() && pre[a]@[b]@ == c;
                        assert(post[a] == pre[a]);
                    }
                    if exists|t: int| 0 <= t < j && trace@[t]@ == c {
                        let t = choose|t: int| 0 <= t < j && trace@[t]@ == c;
                        assert(post[i as int] == *trace);
                        assert(post[i as int]@[t]@ == c);
                    }
                }
                assert(calls_in(post) =~= allowed@);
            }
            i = i + 1;
        }
        assert(traces@.take(traces@.len() as int) =~= traces@);
        SyscallSpec { function_name: String::from_str(function_name), allowed_calls: allowed }
    }

    /// The calls of `trace` that the specification does not allow, in order.
    pub fn check(&self, trace: &[String]) -> (v: Vec<String>)
        ensures
            v@.map_values(|s: String| s@) == outside(trace@, self.allowed_calls@),
    {
        let mut out: Vec<String> = Vec::new();
        let mut i: usize = 0;
        while i < trace.len()
            invariant
                i <= trace@.len(),
                out@.map_values(|s: String| s@) == outside(trace@.take(i as int), self.allowed_calls@),
            decreases trace@.len() - i,
        {
            assert(trace@.take(i + 1).drop_last() =~= trace@.take(i as int));
            if !self.allowed_calls.contains(trace[i].as_str()) {
                out.push(trace[i].clone());
            }
            assert(out@.map_values(|s: String| s@) =~= outside(trace@.take(i + 1), self.allowed_calls@));
            i = i + 1;
        }
        assert(trace@.take(trace@.len() as int) =~= trace@);
        out
    }
}

/// Collects traces per function and builds their specifications.
pub struct SpecMiner {
    traces: StrMap<Vec<Vec<String>>>,
}

impl SpecMiner {
    /// The traces collected per function name.
    pub closed spec fn collected(&self) -> Map<Seq<char>, Vec<Vec<String>>> {
        self.traces@
    }

    /// No traces yet.
    pub fn new() -> (m: Self)
        ensures
            m.collected() == Map::<Seq<char>, Vec<Vec<String>>>::empty(),
    {
        SpecMiner { traces: StrMap::new() }
    }

    /// Adds one trace of `function_name`.
    pub fn add_trace(&mut self, function_name: &str, trace: Vec<String>)
        ensures
            final(self).collected().dom() == old(self).collected().dom().insert(function_name@),
            forall|k: Seq<char>|
                k != function_name@ && #[trigger] old(self).collected().contains_key(k)
                    ==> final(self).collected()[k] == old(self).collected()[k],
            final(self).collected()[function_name@]@ == (if old(self).collected().contains_key(
                function_name@,
            ) {
                old(self).collected()[function_name@]@
            } else {
                Seq::<Vec<String>>::empty()
            }).push(trace),
    {
        let mut v: Vec<Vec<String>> = match self.traces.remove(function_name) {
            Some(v) => v,
            None => Vec::new(),
        };
        v.push(trace);
        self.traces.insert(String::from_str(function_name), v);
        assert(self.traces@.dom() =~= old(self).traces@.dom().insert(function_name@));
    }

    /// One specification per function, learned from all its traces.
    pub fn build_specs(&self) -> (specs: Vec<SyscallSpec>)
        ensures
            specs@.len() == self.collected().len(),
            forall|i: int, j: int|
                0 <= i < j < specs@.len() ==> specs@[i].function_name@ != specs@[j].function_name@,
            forall|i: int|
                0 <= i < specs@.len() ==> self.collected().contains_key(
                    #[trigger] specs@[i].function_name@,
                ) && specs@[i].allowed_calls@ == calls_in(
                    self.collected()[specs@[i].function_name@]@,
                ),
    {
        let n = self.traces.len();
        let mut specs: Vec<SyscallSpec> = Vec::new();
        let mut i: usize = 0;
        while i < n
            invariant
                n == self.traces@.len(),
                n == self.traces.key_order().len(),
                i <= n,
                specs@.len() == i,
                forall|a: int, b: int|
                    0 <= a < b < n ==> self.traces.key_order()[a] != self.traces.key_order()[b],
                forall|a: int| 0 <= a < i ==> #[trigger] specs@[a].function_name@ == self.traces.key_order()[a],
                forall|a: int|
                    0 <= a < i ==> self.traces@.contains_key(#[trigger] specs@[a].function_name@)
                        && specs@[a].allowed_calls@ == calls_in(
                        self.traces@[specs@[a].function_name@]@,
                    ),
            decreases n - i,
        {
            let (name, traces) = self.traces.entry_at(i);
            specs.push(SyscallSpec::learn(name.as_str(), traces.as_slice()));
            i = i + 1;
        }
        assert forall|a: int, b: int| 0 <= a < b < specs@.len() implies specs@[a].function_name@
            != specs@[b].function_name@ by {
            assert(specs@[a].function_name@ == self.traces.key_order()[a]);
            assert(specs@[b].function_name@ == self.traces.key_order()[b]);
        }
        specs
    }

    /// Same as [`SpecMiner::new`].
    pub fn default() -> (m: Self)
        ensures
            m.collected() == Map::<Seq<char>, Vec<Vec<String>>>::empty(),
    {
        Self::new()
    }
}

/// What was learned is accepted: checking any trace that was learned from
/// reports no violation.
pub proof fn law_learned_traces_conform(traces: Seq<Vec<String>>, k: int)
    requires
        0 <= k < traces.len(),
    ensures
        outside(traces[k]@, calls_in(traces)) == Seq::<Seq<char>>::empty(),
{
    lemma_outside_empty(traces, k, traces[k]@.len() as int);
    assert(traces[k]@.take(traces[k]@.len() as int) =~= traces[k]@);
}

proof fn lemma_outside_empty(traces: Seq<Vec<String>>, k: int, n: int)
    requires
        0 <= k < traces.len(),
        0 <= n <= traces[k]@.len(),
    ensures
        outside(traces[k]@.take(n), calls_in(traces)) == Seq::<Seq<char>>::empty(),
    decreases n,
{
    if n == 0 {
        assert(traces[k]@.take(0) =~= Seq::<String>::empty());
    } else {
        lemma_outside_empty(traces, k, n - 1);
        assert(traces[k]@.take(n).drop_last() =~= traces[k]@.take(n - 1));
        assert(calls_in(traces).contains(traces[k]@[n - 1]@));
    }
    if n == traces[k]@.len() {
        assert(traces[k]@.take(n) =~= traces[k]@);
    }
}

} // verus!
