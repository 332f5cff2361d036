//! Seed distillation: a greedy set cover that shrinks a corpus to seeds that
//! together still cover every branch the corpus covered.
use vstd::prelude::*;
use crate::types::BranchId;

verus! {

/// A corpus entry with its input data and the branches it covers.
#[derive(Debug, Clone)]
pub struct CorpusEntry {
    pub data: Vec<u8>,
    pub branches: Vec<BranchId>,
}

// ───────────────────────── model ─────────────────────────

/// How many of the branches `bs` (counted with repetition) are in `unc`.
pub open spec fn gain(bs: Seq<BranchId>, unc: Set<BranchId>) -> nat
    decreases bs.len(),
{
    if bs.len() == 0 {
        0
    } else {
        gain(bs.drop_last(), unc) + if unc.contains(bs.last()) { 1nat } else { 0nat }
    }
}

/// Position, among the first `n` of `rem`, of the entry with the largest
/// gain; on a tie the later one (as `Iterator::max_by_key` picks).
pub open spec fn best_pos(bs: Seq<Seq<BranchId>>, rem: Seq<int>, unc: Set<BranchId>, n: int) -> int
    decreases n,
{
    if n <= 1 {
        0
    } else {
        let p = best_pos(bs, rem, unc, n - 1);
        if gain(bs[rem[n - 1]], unc) >= gain(bs[rem[p]], unc) {
            n - 1
        } else {
            p
        }
    }
}

/// The greedy choices: while branches stay uncovered and entries remain,
/// take the remaining entry that covers the most uncovered branches, stopping
/// when it covers none. The result lists indices into the corpus.
pub open spec fn greedy_picks(bs: Seq<Seq<BranchId>>, rem: Seq<int>, unc: Set<BranchId>) -> Seq<int>
    decreases rem.len(),
{
    if unc.is_empty() || rem.len() == 0 {
        Seq::empty()
    } else {
        let k = best_pos(bs, rem, unc, rem.len() as int);
        if 0 <= k < rem.len() {
            let i = rem[k];
            if gain(bs[i], unc) == 0 {
                Seq::empty()
            } else {
                seq![i] + greedy_picks(bs, rem.remove(k), unc.difference(bs[i].to_set()))
            }
        } else {
            Seq::empty()
        }
    }
}

/// Every branch that some entry of `ix` covers.
pub open spec fn covered_by(bs: Seq<Seq<BranchId>>, ix: Seq<int>) -> Set<BranchId> {
    Set::new(|b: BranchId| exists|k: int| 0 <= k < ix.len() && #[trigger] bs[ix[k]].contains(b))
}

/// The indices `0 .. n`.
pub open spec fn all_indices(n: int) -> Seq<int> {
    Seq::new(n as nat, |i: int| i)
}

/// Branch lists of the corpus entries.
pub open spec fn branch_lists(entries: Seq<CorpusEntry>) -> Seq<Seq<BranchId>> {
    entries.map_values(|e: CorpusEntry| e.branches@)
}

/// The indices of the entries that distillation keeps, in the order taken.
pub open spec fn distill_picks(entries: Seq<CorpusEntry>) -> Seq<int> {
    let bs = branch_lists(entries);
    let all = all_indices(entries.len() as int);
    greedy_picks(bs, all, covered_by(bs, all))
}

// ───────────────────────── lemmas ─────────────────────────

/// Gain is zero exactly when no branch of `bs` is uncovered.
pub proof fn lemma_gain_zero(bs: Seq<BranchId>, unc: Set<BranchId>)
    ensures
        (gain(bs, unc) == 0) <==> (forall|j: int| 0 <= j < bs.len() ==> !unc.contains(#[trigger] bs[j])),
    decreases bs.len(),
{
    if bs.len() > 0 {
        lemma_gain_zero(bs.drop_last(), unc);
        assert forall|j: int| 0 <= j < bs.len() - 1 implies bs.drop_last()[j] == #[trigger] bs[j] by {}
    }
}

/// The best position is in range and its gain is the largest.
pub proof fn lemma_best_pos(bs: Seq<Seq<BranchId>>, rem: Seq<int>, unc: Set<BranchId>, n: int)
    requires
        1 <= n <= rem.len(),
    ensures
        0 <= best_pos(bs, rem, unc, n) < n,
        forall|p: int|
            0 <= p < n ==> #[trigger] gain(bs[rem[p]], unc) <= gain(
                bs[rem[best_pos(bs, rem, unc, n)]],
                unc,
            ),
    decreases n,
{
    if n > 1 {
        lemma_best_pos(bs, rem, unc, n - 1);
    }
}

/// The greedy choices cover every uncovered branch that the remaining entries
/// cover, and are remaining entries.
pub proof fn lemma_greedy_covers(bs: Seq<Seq<BranchId>>, rem: Seq<int>, unc: Set<BranchId>)
    requires
        forall|k: int| 0 <= k < rem.len() ==> 0 <= #[trigger] rem[k] < bs.len(),
        unc.subset_of(covered_by(bs, rem)),
    ensures
        unc.subset_of(covered_by(bs, greedy_picks(bs, rem, unc))),
        forall|k: int|
            0 <= k < greedy_picks(bs, rem, unc).len() ==> rem.contains(
                #[trigger] greedy_picks(bs, rem, unc)[k],
            ),
    decreases rem.len(),
{
    let picks = greedy_picks(bs, rem, unc);
    if unc.is_empty() {
        assert(unc =~= Set::<BranchId>::empty());
    } else if rem.len() == 0 {
        let b = unc.choose();
        assert(covered_by(bs, rem).contains(b));
    } else {
        let k = best_pos(bs, rem, unc, rem.len() as int);
        lemma_best_pos(bs, rem, unc, rem.len() as int);
        let i = rem[k];
        if gain(bs[i], unc) == 0 {
            let b = unc.choose();
            assert(covered_by(bs, rem).contains(b));
            let q = choose|q: int| 0 <= q < rem.len() && #[trigger] bs[rem[q]].contains(b);
            let j = choose|j: int| 0 <= j < bs[rem[q]].len() && bs[rem[q]][j] == b;
            lemma_gain_zero(bs[rem[q]], unc);
            assert(gain(bs[rem[q]], unc) <= gain(bs[i], unc));
            assert(!unc.contains(bs[rem[q]][j]));
        } else {
            let rem2 = rem.remove(k);
            let unc2 = unc.difference(bs[i].to_set());
            assert forall|b: BranchId| unc2.contains(b) implies covered_by(bs, rem2).contains(b) by {
                assert(covered_by(bs, rem).contains(b));
                let q = choose|q: int| 0 <= q < rem.len() && #[trigger] bs[rem[q]].contains(b);
                assert(q != k);
                let q2 = if q < k { q } else { q - 1 };
                assert(rem2[q2] == rem[q]);
            }
            assert forall|k2: int| 0 <= k2 < rem2.len() implies 0 <= #[trigger] rem2[k2] < bs.len() by {
                let q = if k2 < k { k2 } else { k2 + 1 };
                assert(rem2[k2] == rem[q]);
            }
            lemma_greedy_covers(bs, rem2, unc2);
            let rest = greedy_picks(bs, rem2, unc2);
            assert(picks == seq![i] + rest);
            assert forall|b: BranchId| unc.contains(b) implies covered_by(bs, picks).contains(b) by {
                if bs[i].to_set().contains(b) {
                    assert(picks[0] == i);
                    assert(bs[picks[0]].contains(b));
                } else {
                    assert(unc2.contains(b));
                    assert(covered_by(bs, rest).contains(b));
                    let q = choose|q: int| 0 <= q < rest.len() && #[trigger] bs[rest[q]].contains(b);
                    assert(picks[q + 1] == rest[q]);
                    assert(bs[picks[q + 1]].contains(b));
                }
            }
            assert forall|t: int| 0 <= t < picks.len() implies rem.contains(#[trigger] picks[t]) by {
                if t == 0 {
                    assert(rem[k] == i);
                } else {
                    assert(picks[t] == rest[t - 1]);
                    assert(rem2.contains(rest[t - 1]));
                    let q = choose|q: int| 0 <= q < rem2.len() && rem2[q] == rest[t - 1];
                    let q2 = if q < k { q } else { q + 1 };
                    assert(rem[q2] == rem2[q]);
                }
            }
        }
    }
}

/// Adding entry `i` adds its branches to what the first `i` entries cover.
pub proof fn lemma_covered_step(bs: Seq<Seq<BranchId>>, i: int)
    requires
        0 <= i < bs.len(),
    ensures
        covered_by(bs, all_indices(i + 1)) == covered_by(bs, all_indices(i)).union(bs[i].to_set()),
{
    let c0 = covered_by(bs, all_indices(i));
    let c1 = covered_by(bs, all_indices(i + 1));
    assert forall|b: BranchId| c1.contains(b) implies c0.union(bs[i].to_set()).contains(b) by {
        let q = choose|q: int| 0 <= q < i + 1 && #[trigger] bs[all_indices(i + 1)[q]].contains(b);
        if q < i {
            assert(all_indices(i)[q] == q);
            assert(bs[all_indices(i)[q]].contains(b));
        }
    }
    assert forall|b: BranchId| c0.union(bs[i].to_set()).contains(b) implies c1.contains(b) by {
        if c0.contains(b) {
            let q = choose|q: int| 0 <= q < i && #[trigger] bs[all_indices(i)[q]].contains(b);
            assert(all_indices(i + 1)[q] == q);
            assert(bs[all_indices(i + 1)[q]].contains(b));
        } else {
            assert(all_indices(i + 1)[i] == i);
            assert(bs[all_indices(i + 1)[i]].contains(b));
        }
    }
    assert(c1 =~= c0.union(bs[i].to_set()));
}

/// The elements of a concatenation are those of its parts.
pub proof fn lemma_concat_to_set(a: Seq<BranchId>, b: Seq<BranchId>)
    ensures
        (a + b).to_set() == a.to_set().union(b.to_set()),
{
    broadcast use vstd::seq_lib::lemma_seq_concat_contains_all_elements;

    assert((a + b).to_set() =~= a.to_set().union(b.to_set()));
}

/// Distillation keeps exactly the coverage of the corpus: every branch some
/// entry covers is covered by a kept entry, and kept entries come from the
/// corpus.
pub proof fn law_distill_preserves_coverage(entries: Seq<CorpusEntry>)
    ensures
        covered_by(branch_lists(entries), distill_picks(entries)) == covered_by(
            branch_lists(entries),
            all_indices(entries.len() as int),
        ),
        forall|k: int|
            0 <= k < distill_picks(entries).len() ==> 0 <= #[trigger] distill_picks(entries)[k]
                < entries.len(),
{
    let bs = branch_lists(entries);
    let all = all_indices(entries.len() as int);
    let picks = distill_picks(entries);
    lemma_greedy_covers(bs, all, covered_by(bs, all));
    assert forall|k: int| 0 <= k < picks.len() implies 0 <= #[trigger] picks[k] < entries.len() by {
        assert(all.contains(picks[k]));
    }
    assert forall|b: BranchId| covered_by(bs, picks).contains(b) implies covered_by(bs, all).contains(
        b,
    ) by {
        let q = choose|q: int| 0 <= q < picks.len() && #[trigger] bs[picks[q]].contains(b);
        assert(0 <= picks[q] < entries.len());
        assert(all[picks[q]] == picks[q]);
    }
    assert(covered_by(bs, picks) =~= covered_by(bs, all));
}

// ───────────────────────── code ─────────────────────────

/// Whether `b` occurs in `v`.
fn has_branch(v: &Vec<BranchId>, b: BranchId) -> (r: bool)
    ensures
        r == v@.contains(b),
{
    let mut i: usize = 0;
    while i < v.len()
        invariant
            i <= v@.len(),
            forall|j: int| 0 <= j < i ==> v@[j] != b,
        decreases v@.len() - i,
    {
        if v[i] == b {
            return true;
        }
        i = i + 1;
    }
    false
}

/// How many branches of `bs` are in `unc` (see [`gain`]).
fn gain_exec(bs: &Vec<BranchId>, unc: &Vec<BranchId>) -> (n: usize)
    ensures
        n == gain(bs@, unc@.to_set()),
{
    let mut n: usize = 0;
    let mut j: usize = 0;
    while j < bs.len()
        invariant
            j <= bs@.len(),
            n <= j,
            n == gain(bs@.take(j as int), unc@.to_set()),
        decreases bs@.len() - j,
    {
        assert(bs@.take(j + 1).drop_last() =~= bs@.take(j as int));
        if has_branch(unc, bs[j]) {
            n = n + 1;
        }
        j = j + 1;
    }
    assert(bs@.take(bs@.len() as int) =~= bs@);
    n
}

/// `unc` without any copy of the branches of `bs`.
fn without_branches(unc: &Vec<BranchId>, bs: &Vec<BranchId>) -> (r: Vec<BranchId>)
    ensures
        r@.to_set() == unc@.to_set().difference(bs@.to_set()),
{
    let mut r: Vec<BranchId> = Vec::new();
    let mut i: usize = 0;
    while i < unc.len()
        invariant
            i <= unc@.len(),
            r@.to_set() == unc@.take(i as int).to_set().difference(bs@.to_set()),
        decreases unc@.len() - i,
    {
        let b = unc[i];
        let ghost before = r@;
        let ghost s0 = unc@.take(i as int);
        assert(unc@.take(i + 1) =~= s0.push(b));
        proof {
            s0.lemma_push_to_set_commute(b);
            before.lemma_push_to_set_commute(b);
        }
        if !has_branch(bs, b) {
            r.push(b);
        }
        assert(r@.to_set() =~= unc@.take(i + 1).to_set().difference(bs@.to_set()));
        i = i + 1;
    }
    assert(unc@.take(unc@.len() as int) =~= unc@);
    r
}

/// A copy of an entry.
fn copy_entry(e: &CorpusEntry) -> (c: CorpusEntry)
    ensures
        c.data@ == e.data@,
        c.branches@ == e.branches@,
{
    let mut data: Vec<u8> = Vec::new();
    let mut i: usize = 0;
    while i < e.data.len()
        invariant
            i <= e.data@.len(),
            data@ == e.data@.take(i as int),
        decreases e.data@.len() - i,
    {
        data.push(e.data[i]);
        assert(e.data@.take(i + 1) =~= e.data@.take(i as int).push(e.data@[i as int]));
        i = i + 1;
    }
    let mut branches: Vec<BranchId> = Vec::new();
    let mut j: usize = 0;
    while j < e.branches.len()
        invariant
            j <= e.branches@.len(),
            branches@ == e.branches@.take(j as int),
        decreases e.branches@.len() - j,
    {
        branches.push(e.branches[j]);
        assert(e.branches@.take(j + 1) =~= e.branches@.take(j as int).push(e.branches@[j as int]));
        j = j + 1;
    }
    assert(e.data@.take(e.data@.len() as int) =~= e.data@);
    assert(e.branches@.take(e.branches@.len() as int) =~= e.branches@);
    CorpusEntry { data, branches }
}

/// Distills a corpus with greedy set cover: repeatedly keeps the remaining
/// entry that covers the most still-uncovered branches (the later one on a
/// tie), until every branch is covered or the best entry adds nothing. The
/// kept entries (copies, in the order taken) cover every branch the corpus
/// covers (see [`law_distill_preserves_coverage`]).
pub fn distill_corpus(entries: &[CorpusEntry]) -> (result: Vec<CorpusEntry>)
    ensures
        result.len() == distill_picks(entries@).len(),
        forall|k: int|
            0 <= k < result.len() ==> 0 <= #[trigger] distill_picks(entries@)[k] < entries@.len(),
        forall|k: int|
            0 <= k < result.len() ==> (#[trigger] result@[k]).data@
                == entries@[distill_picks(entries@)[k]].data@,
        forall|k: int|
            0 <= k < result.len() ==> (#[trigger] result@[k]).branches@
                == entries@[distill_picks(entries@)[k]].branches@,
{
    let ghost bs = branch_lists(entries@);
    let ghost all = all_indices(entries@.len() as int);
    proof {
        law_distill_preserves_coverage(entries@);
    }
    let mut kept: Vec<CorpusEntry> = Vec::new();
    if entries.len() == 0 {
        assert(all =~= Seq::<int>::empty());
        return kept;
    }
    // All branches of the corpus.
    let mut uncovered: Vec<BranchId> = Vec::new();
    let mut i: usize = 0;
    while i < entries.len()
        invariant
            i <= entries@.len(),
            bs == branch_lists(entries@),
            uncovered@.to_set() == covered_by(bs, all_indices(i as int)),
        decreases entries@.len() - i,
    {
        let ghost before = uncovered@;
        let mut j: usize = 0;
        while j < entries[i].branches.len()
            invariant
                i < entries@.len(),
                j <= entries@[i as int].branches@.len(),
                uncovered@ == before + entries@[i as int].branches@.take(j as int),
            decreases entries@[i as int].branches@.len() - j,
        {
            uncovered.push(entries[i].branches[j]);
            assert(entries@[i as int].branches@.take(j + 1) =~= entries@[i as int].branches@.take(
                j as int,
            ).push(entries@[i as int].branches@[j as int]));
            j = j + 1;
        }
        assert(entries@[i as int].branches@.take(j as int) =~= entries@[i as int].branches@);
        assert(bs[i as int] == entries@[i as int].branches@);
        proof {
            lemma_covered_step(bs, i as int);
            lemma_concat_to_set(before, bs[i as int]);
        }
        i = i + 1;
    }
    // Indices of the entries not yet taken.
    let mut remaining: Vec<usize> = Vec::new();
    let mut r: usize = 0;
    while r < entries.len()
        invariant
            r <= entries@.len(),
            remaining@.len() == r,
            forall|t: int| 0 <= t < r ==> remaining@[t] == t,
        decreases entries@.len() - r,
    {
        remaining.push(r);
        r = r + 1;
    }
    assert(remaining@.map_values(|x: usize| x as int) =~= all);
    let ghost mut taken: Seq<int> = Seq::empty();
    let mut done = false;
    while !done && uncovered.len() > 0 && remaining.len() > 0
        invariant
            bs == branch_lists(entries@),
            forall|t: int| 0 <= t < remaining@.len() ==> #[trigger] remaining@[t] < entries@.len(),
            !done ==> taken + greedy_picks(
                bs,
                remaining@.map_values(|x: usize| x as int),
                uncovered@.to_set(),
            ) == distill_picks(entries@),
            done ==> taken == distill_picks(entries@),
            kept@.len() == taken.len(),
            forall|k: int| 0 <= k < kept@.len() ==> 0 <= #[trigger] taken[k] < entries@.len(),
            forall|k: int| 0 <= k < kept@.len() ==> (#[trigger] kept@[k]).data@ == entries@[taken[k]].data@,
            forall|k: int| 0 <= k < kept@.len() ==> (#[trigger] kept@[k]).branches@ == entries@[taken[k]].branches@,
        decreases remaining@.len(),
    {
        let ghost remv = remaining@.map_values(|x: usize| x as int);
        let ghost unc = uncovered@.to_set();
        let ghost rem_before = remaining@;
        assert(unc.contains(uncovered@[0]));
        // The remaining entry with the largest gain (the later one on a tie).
        let mut best: usize = 0;
        let mut best_gain: usize = gain_exec(&entries[remaining[0]].branches, &uncovered);
        let mut p: usize = 1;
        assert(bs[remv[0]] == entries@[remaining@[0] as int].branches@);
        while p < remaining.len()
            invariant
                1 <= p <= remaining@.len(),
                remv == remaining@.map_values(|x: usize| x as int),
                unc == uncovered@.to_set(),
                bs == branch_lists(entries@),
                forall|t: int| 0 <= t < remaining@.len() ==> #[trigger] remaining@[t] < entries@.len(),
                best == best_pos(bs, remv, unc, p as int),
                best < p,
                best_gain == gain(bs[remv[best as int]], unc),
                kept@.len() == taken.len(),
                forall|k: int| 0 <= k < kept@.len() ==> 0 <= #[trigger] taken[k] < entries@.len(),
                forall|k: int| 0 <= k < kept@.len() ==> (#[trigger] kept@[k]).data@ == entries@[taken[k]].data@,
                forall|k: int| 0 <= k < kept@.len() ==> (#[trigger] kept@[k]).branches@ == entries@[taken[k]].branches@,
            decreases remaining@.len() - p,
        {
            let g = gain_exec(&entries[remaining[p]].branches, &uncovered);
            assert(bs[remv[p as int]] == entries@[remaining@[p as int] as int].branches@);
            if g >= best_gain {
                best = p;
                best_gain = g;
            }
            p = p + 1;
        }
        let idx = remaining.remove(best);
        assert(bs[idx as int] == entries@[idx as int].branches@);
        assert(remaining@ == rem_before.remove(best as int));
        assert forall|t: int| 0 <= t < remaining@.len() implies #[trigger] remaining@[t]
            < entries@.len() by {
            let q = if t < best { t } else { t + 1 };
            assert(remaining@[t] == rem_before[q]);
        }
        if best_gain == 0 {
            assert(greedy_picks(bs, remv, unc) =~= Seq::<int>::empty());
            assert(taken + Seq::<int>::empty() =~= taken);
            done = true;
        } else {
        let ghost unc2 = unc.difference(bs[idx as int].to_set());
        uncovered = without_branches(&uncovered, &entries[idx].branches);
        let ghost old_result = kept@;
        assert(idx == rem_before[best as int]);
        assert(idx < entries@.len());
        let c = copy_entry(&entries[idx]);
        kept.push(c);
        assert forall|k: int| 0 <= k < old_result.len() implies kept@[k] == old_result[k] by {}
        proof {
            assert(remaining@.map_values(|x: usize| x as int) =~= remv.remove(best as int));
            assert(greedy_picks(bs, remv, unc) == seq![idx as int] + greedy_picks(
                bs,
                remv.remove(best as int),
                unc2,
            ));
            assert(taken.push(idx as int) + greedy_picks(bs, remv.remove(best as int), unc2)
                =~= taken + (seq![idx as int] + greedy_picks(bs, remv.remove(best as int), unc2)));
            let ghost old_taken = taken;
            taken = taken.push(idx as int);
            assert forall|k: int| 0 <= k < kept@.len() implies {
                &&& 0 <= taken[k] < entries.len()
                &&& (#[trigger] kept@[k]).data@ == entries@[taken[k]].data@
                &&& kept@[k].branches@ == entries@[taken[k]].branches@
            } by {
                if k < old_result.len() {
                    assert(taken[k] == old_taken[k]);
                    assert(kept@[k] == old_result[k]);
                } else {
                    assert(taken[k] == idx);
                    assert(kept@[k] == c);
                }
            }
        }
        }
    }
    proof {
        if !done && uncovered@.len() == 0 {
            assert(uncovered@.to_set() =~= Set::<BranchId>::empty());
        }
        if !done {
            assert(greedy_picks(bs, remaining@.map_values(|x: usize| x as int), uncovered@.to_set())
                =~= Seq::<int>::empty());
            assert(taken + Seq::<int>::empty() =~= taken);
        }
    }
    kept
}

} // verus!
