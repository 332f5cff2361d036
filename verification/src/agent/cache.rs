//! Satisfiability cache with negation inference.
use vstd::prelude::*;
use crate::strmap::StrMap;
use crate::text::{chars_of, starts_with_str, slice_chars, string_of};

verus! {

/// Cached satisfiability result.
#[derive(Debug, Clone, Copy, PartialEq, Eq, Structural)]
pub enum SatResult {
    Sat,
    Unsat,
    Unknown,
}

/// `"(not " + c + ")"`.
pub open spec fn negation(c: Seq<char>) -> Seq<char> {
    "(not "@ + c + ")"@
}

/// Whether `c` has the form `(not X)`.
pub open spec fn is_negation_form(c: Seq<char>) -> bool {
    c.len() >= 6 && c.subrange(0, 5) == "(not "@ && c.last() == ')'
}

/// `X` for `c` of the form `(not X)`.
pub open spec fn negated_inner(c: Seq<char>) -> Seq<char> {
    c.subrange(5, c.len() - 1)
}

/// Whether `m` holds `k` as `Unsat`.
pub open spec fn stored_unsat(m: Map<Seq<char>, SatResult>, k: Seq<char>) -> bool {
    m.contains_key(k) && m[k] == SatResult::Unsat
}

/// Cache lookup with negation inference: a stored answer for `c` wins;
/// else `(not c)` stored as UNSAT gives SAT; else, for `c` = `(not X)`,
/// `X` stored as UNSAT gives SAT; else nothing is known.
pub open spec fn lookup(m: Map<Seq<char>, SatResult>, c: Seq<char>) -> Option<SatResult> {
    if m.contains_key(c) {
        Some(m[c])
    } else if stored_unsat(m, negation(c)) {
        Some(SatResult::Sat)
    } else if is_negation_form(c) && stored_unsat(m, negated_inner(c)) {
        Some(SatResult::Sat)
    } else {
        None
    }
}

/// Cache of satisfiability results with negation inference.
/// If ¬C is cached as UNSAT, C is inferred SAT without querying a solver.
pub struct SolverCache {
    cache: StrMap<SatResult>,
}

impl View for SolverCache {
    type V = Map<Seq<char>, SatResult>;

    closed spec fn view(&self) -> Map<Seq<char>, SatResult> {
        self.cache@
    }
}

impl SolverCache {
    /// An empty cache.
    pub fn new() -> (c: Self)
        ensures
            c@ == Map::<Seq<char>, SatResult>::empty(),
    {
        SolverCache { cache: StrMap::new() }
    }

    /// Looks up a constraint, inferring SAT from a cached UNSAT negation.
    pub fn check(&self, constraint: &str) -> (r: Option<SatResult>)
        ensures
            r == lookup(self@, constraint@),
    {
        if let Some(r) = self.cache.get(constraint) {
            return Some(*r);
        }
        let mut negated = String::from_str("(not ");
        negated.append(constraint);
        negated.append(")");
        if let Some(r) = self.cache.get(negated.as_str()) {
            if *r == SatResult::Unsat {
                return Some(SatResult::Sat);
            }
        }
        let cv = chars_of(constraint);
        if cv.len() >= 6 && starts_with_str(&cv, "(not ") && cv[cv.len() - 1] == ')' {
            proof {
                reveal_strlit("(not ");
                assert(cv@.subrange(0, 5) =~= "(not "@);
            }
            let inner = string_of(&slice_chars(&cv, 5, cv.len() - 1));
            if let Some(r) = self.cache.get(inner.as_str()) {
                if *r == SatResult::Unsat {
                    return Some(SatResult::Sat);
                }
            }
        } else {
            proof {
                reveal_strlit("(not ");
                if cv@.len() >= 6 && cv@.subrange(0, 5) == "(not "@ {
                    assert(cv@.subrange(0, 5) =~= "(not "@);
                }
            }
        }
        None
    }

    /// Records the result for a constraint, replacing an earlier one.
    pub fn insert(&mut self, constraint: String, result: SatResult)
        ensures
            final(self)@ == old(self)@.insert(constraint@, result),
    {
        self.cache.insert(constraint, result);
    }

    /// Number of cached constraints (the cache holds finitely many).
    pub fn len(&self) -> (n: usize)
        ensures
            n == self@.len(),
            self@.dom().finite(),
    {
        self.cache.len()
    }

    /// Whether nothing is cached.
    pub fn is_empty(&self) -> (b: bool)
        ensures
            b == (self@.len() == 0),
    {
        self.cache.is_empty()
    }

    /// Forgets every cached result.
    pub fn clear(&mut self)
        ensures
            final(self)@ == Map::<Seq<char>, SatResult>::empty(),
    {
        self.cache.clear();
    }

    /// Same as [`SolverCache::new`].
    pub fn default() -> (c: Self)
        ensures
            c@ == Map::<Seq<char>, SatResult>::empty(),
    {
        Self::new()
    }
}

/// What a stored answer gives back: after `insert(c, r)`, `check(c)` is `r`.
pub proof fn law_check_after_insert(m: Map<Seq<char>, SatResult>, c: Seq<char>, r: SatResult)
    ensures
        lookup(m.insert(c, r), c) == Some(r),
{
}

/// Negation inference is sound in both directions: storing `(not c)` as UNSAT
/// makes an unknown `c` SAT, and storing `c` as UNSAT makes an unknown
/// `(not c)` SAT.
pub proof fn law_negation_inference(m: Map<Seq<char>, SatResult>, c: Seq<char>)
    ensures
        !m.contains_key(c) ==> lookup(m.insert(negation(c), SatResult::Unsat), c) == Some(
            SatResult::Sat,
        ),
        !m.contains_key(negation(c)) && !m.contains_key(negation(negation(c)))
            ==> lookup(m.insert(c, SatResult::Unsat), negation(c)) == Some(SatResult::Sat),
{
    reveal_strlit("(not ");
    reveal_strlit(")");
    let n = negation(c);
    assert(n.subrange(0, 5) =~= "(not "@);
    assert(negated_inner(n) =~= c);
    if !m.contains_key(c) {
        if c == n {
            assert(c.len() == n.len());
        }
    }
    if !m.contains_key(n) && !m.contains_key(negation(n)) {
        assert(n != c) by {
            assert(n.len() != c.len());
        }
        assert(negation(n) != c) by {
            assert(negation(n).len() != c.len());
        }
    }
}

} // verus!
