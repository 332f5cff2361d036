//! Merging the feedback of several strategy rounds: the distinct branches
//! found, the errors met, and the strategies heard from.
use vstd::prelude::*;
use crate::types::BranchId;

verus! {

/// One round of feedback: the strategy's name, the branches it found, and
/// the errors it met.
pub type FeedbackEntry = (String, Vec<BranchId>, u32);

/// The whole-number part of merged feedback.
#[derive(Debug, Clone)]
pub struct FeedbackCounts {
    /// Distinct branches found over all rounds.
    pub total_new_branches: usize,
    /// Errors over all rounds.
    pub total_errors: u32,
    /// Strategy names, each once, in the order first heard from.
    pub strategies: Vec<String>,
}

/// Every branch of every round, round after round.
pub open spec fn all_branches(es: Seq<FeedbackEntry>) -> Seq<BranchId>
    decreases es.len(),
{
    if es.len() == 0 {
        Seq::empty()
    } else {
        all_branches(es.drop_last()) + es.last().1@
    }
}

/// The errors of all rounds together.
pub open spec fn error_total(es: Seq<FeedbackEntry>) -> int
    decreases es.len(),
{
    if es.len() == 0 {
        0
    } else {
        error_total(es.drop_last()) + es.last().2
    }
}

/// The strategy names, each once, in the order first heard from.
pub open spec fn distinct_names(es: Seq<FeedbackEntry>) -> Seq<Seq<char>>
    decreases es.len(),
{
    if es.len() == 0 {
        Seq::empty()
    } else {
        let prev = distinct_names(es.drop_last());
        if prev.contains(es.last().0@) {
            prev
        } else {
            prev.push(es.last().0@)
        }
    }
}

proof fn lemma_error_total_mono(es: Seq<FeedbackEntry>, i: int)
    requires
        0 <= i <= es.len(),
    ensures
        error_total(es.take(i)) <= error_total(es),
    decreases es.len(),
{
    if i < es.len() {
        assert(es.drop_last().take(i) =~= es.take(i));
        lemma_error_total_mono(es.drop_last(), i);
    } else {
        assert(es.take(i) =~= es);
    }
}

/// Merges the rounds `es`: the number of distinct branches found, the sum of
/// the errors, and the strategy names in first-heard order. Requires the
/// error sum to fit in a `u32`.
pub fn feedback_counts(es: &[FeedbackEntry]) -> (r: FeedbackCounts)
    requires
        error_total(es@) <= u32::MAX,
    ensures
        r.total_new_branches == all_branches(es@).to_set().len(),
        r.total_errors == error_total(es@),
        r.strategies@.map_values(|s: String| s@) == distinct_names(es@),
{
    let mut seen: Vec<BranchId> = Vec::new();
    let mut errors: u32 = 0;
    let mut names: Vec<String> = Vec::new();
    let mut i: usize = 0;
    assert(es@.take(0) =~= Seq::<FeedbackEntry>::empty());
    while i < es.len()
        invariant
            i <= es@.len(),
            error_total(es@) <= u32::MAX,
            seen@.no_duplicates(),
            seen@.to_set() == all_branches(es@.take(i as int)).to_set(),
            errors == error_total(es@.take(i as int)),
            names@.map_values(|s: String| s@) == distinct_names(es@.take(i as int)),
        decreases es@.len() - i,
    {
        assert(es@.take(i + 1).drop_last() =~= es@.take(i as int));
        assert(es@.take(i + 1).last() == es@[i as int]);
        let bs = &es[i].1;
        let ghost before = all_branches(es@.take(i as int));
        let mut j: usize = 0;
        while j < bs.len()
            invariant
                j <= bs@.len(),
                seen@.no_duplicates(),
                seen@.to_set() == (before + bs@.take(j as int)).to_set(),
            decreases bs@.len() - j,
        {
            let b = bs[j];
            let mut k: usize = 0;
            let mut found = false;
            while k < seen.len()
                invariant
                    k <= seen@.len(),
                    found ==> seen@.contains(b),
                    !found ==> forall|t: int| 0 <= t < k ==> seen@[t] != b,
                decreases seen@.len() - k,
            {
                if seen[k] == b {
                    found = true;
                }
                k = k + 1;
            }
            assert((before + bs@.take(j + 1)) =~= (before + bs@.take(j as int)).push(b));
            proof {
                (before + bs@.take(j as int)).lemma_push_to_set_commute(b);
            }
            if !found {
                assert(!seen@.contains(b));
                let ghost old_seen = seen@;
                seen.push(b);
                assert(seen@ =~= old_seen.push(b));
                assert(seen@.no_duplicates()) by {
                    assert forall|x: int, y: int| 0 <= x < seen@.len() && 0 <= y < seen@.len() && x != y
                        implies seen@[x] != seen@[y] by {
                        if x == old_seen.len() {
                            assert(old_seen[y] == seen@[y]);
                        } else if y == old_seen.len() {
                            assert(old_seen[x] == seen@[x]);
                        }
                    }
                }
                proof {
                    old_seen.lemma_push_to_set_commute(b);
                }
                assert((before + bs@.take(j as int)).push(b).to_set()
                    =~= (before + bs@.take(j as int)).to_set().insert(b));
            } else {
                assert((before + bs@.take(j as int)).to_set().contains(b));
                assert((before + bs@.take(j as int)).push(b).to_set()
                    =~= (before + bs@.take(j as int)).to_set().insert(b));
                assert(seen@.to_set().insert(b) =~= seen@.to_set());
            }
            j = j + 1;
        }
        assert(bs@.take(bs@.len() as int) =~= bs@);
        proof {
            lemma_error_total_mono(es@, i + 1);
        }
        errors = errors + es[i].2;
        let name = &es[i].0;
        let ghost nv = names@.map_values(|s: String| s@);
        let mut k: usize = 0;
        let mut known = false;
        let nc = crate::text::chars_of(name.as_str());
        while k < names.len()
            invariant
                k <= names@.len(),
                nc@ == name@,
                nv == names@.map_values(|s: String| s@),
                known ==> nv.contains(name@),
                !known ==> forall|t: int| 0 <= t < k ==> nv[t] != name@,
            decreases names@.len() - k,
        {
            let c = crate::text::chars_of(names[k].as_str());
            if crate::sorted::same_text(&c, &nc) {
                assert(nv[k as int] == name@);
                known = true;
            }
            k = k + 1;
        }
        if !known {
            names.push(name.clone());
            assert(names@.map_values(|s: String| s@) =~= nv.push(name@));
        }
        i = i + 1;
    }
    assert(es@.take(es@.len() as int) =~= es@);
    proof {
        seen@.unique_seq_to_set();
    }
    FeedbackCounts { total_new_branches: seen.len(), total_errors: errors, strategies: names }
}

} // verus!
