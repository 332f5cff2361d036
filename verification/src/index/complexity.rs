//! Static against exercised complexity of the functions of one source file.
use vstd::prelude::*;
use crate::index::analysis::{extract_functions, functions_from, line_numbers_fit};
use crate::index::types::{BranchIndex, BranchProfile};
use crate::text::str_views;

verus! {

/// Branch counts of one function: the profiled branches on its lines, and
/// how many of them a test hit.
#[derive(Debug, Clone)]
pub struct FunctionBranchCounts {
    pub function_name: String,
    /// First line of the function (1-based).
    pub line: u32,
    /// Profiled branches in the function (static complexity).
    pub static_complexity: usize,
    /// Those of them that some test hit (exercised complexity).
    pub exercised_complexity: usize,
}

// ───────────────────────── model ─────────────────────────

/// The profile is of a branch in file `f` on a line in `lo..=hi` (and, where
/// `hit_only`, one that a test hit).
pub open spec fn profile_in(p: BranchProfile, f: u64, lo: u32, hi: u32, hit_only: bool) -> bool {
    &&& p.branch.file_id == f
    &&& lo <= p.branch.line <= hi
    &&& (!hit_only || p.hit_count > 0)
}

/// How many of the profiles listed in `order` satisfy [`profile_in`].
pub open spec fn count_in(
    order: Seq<Seq<char>>,
    m: Map<Seq<char>, BranchProfile>,
    f: u64,
    lo: u32,
    hi: u32,
    hit_only: bool,
) -> nat
    decreases order.len(),
{
    if order.len() == 0 {
        0
    } else {
        count_in(order.drop_last(), m, f, lo, hi, hit_only) + if profile_in(
            m[order.last()],
            f,
            lo,
            hi,
            hit_only,
        ) {
            1nat
        } else {
            0nat
        }
    }
}

/// `(name, first line, static, exercised)` of the functions `fns` of file
/// `f` that hold at least one profiled branch, in order.
pub open spec fn complexity_entries(
    fns: Seq<(Seq<char>, u32, u32)>,
    idx: BranchIndex,
    f: u64,
) -> Seq<(Seq<char>, u32, nat, nat)>
    decreases fns.len(),
{
    if fns.len() == 0 {
        Seq::empty()
    } else {
        let prev = complexity_entries(fns.drop_last(), idx, f);
        let (name, lo, hi) = fns.last();
        let order = idx.profiles.key_order();
        let s = count_in(order, idx.profiles@, f, lo, hi, false);
        if s == 0 {
            prev
        } else {
            prev.push((name, lo, s, count_in(order, idx.profiles@, f, lo, hi, true)))
        }
    }
}

/// `c` holds the entry `e`.
pub open spec fn counts_are(c: FunctionBranchCounts, e: (Seq<char>, u32, nat, nat)) -> bool {
    &&& c.function_name@ == e.0
    &&& c.line == e.1
    &&& c.static_complexity == e.2
    &&& c.exercised_complexity == e.3
}

// ───────────────────────── code ─────────────────────────

/// The profiles in file `f` on lines `lo..=hi`, and those of them hit.
fn count_range(idx: &BranchIndex, f: u64, lo: u32, hi: u32) -> (r: (usize, usize))
    ensures
        r.0 == count_in(idx.profiles.key_order(), idx.profiles@, f, lo, hi, false),
        r.1 == count_in(idx.profiles.key_order(), idx.profiles@, f, lo, hi, true),
{
    let len = idx.profiles.len();
    let ghost order = idx.profiles.key_order();
    let mut all: usize = 0;
    let mut hit: usize = 0;
    let mut i: usize = 0;
    assert(order.take(0) =~= Seq::<Seq<char>>::empty());
    while i < len
        invariant
            i <= len,
            len == order.len(),
            order == idx.profiles.key_order(),
            all == count_in(order.take(i as int), idx.profiles@, f, lo, hi, false),
            hit == count_in(order.take(i as int), idx.profiles@, f, lo, hi, true),
            hit <= i,
            all <= i,
        decreases len - i,
    {
        assert(order.take(i + 1).drop_last() =~= order.take(i as int));
        assert(order.take(i + 1).last() == order[i as int]);
        let (_, p) = idx.profiles.entry_at(i);
        if p.branch.file_id == f && lo <= p.branch.line && p.branch.line <= hi {
            all = all + 1;
            if p.hit_count > 0 {
                hit = hit + 1;
            }
        }
        i = i + 1;
    }
    assert(order.take(len as int) =~= order);
    (all, hit)
}

/// For each function declared in `lines` (the source of file `file_id`) that
/// holds at least one profiled branch, in order: its name, first line, the
/// number of profiled branches on its lines and how many of them were hit.
pub fn function_branch_counts(index: &BranchIndex, file_id: u64, lines: &[&str]) -> (r: Vec<
    FunctionBranchCounts,
>)
    requires
        line_numbers_fit(str_views(lines@), index.language),
    ensures
        ({
            let es = complexity_entries(
                functions_from(str_views(lines@), index.language, 0, None),
                *index,
                file_id,
            );
            &&& r@.len() == es.len()
            &&& forall|i: int| 0 <= i < r@.len() ==> counts_are(#[trigger] r@[i], es[i])
        }),
{
    let fns = extract_functions(lines, index.language);
    let ghost fv = fns@.map_values(|f: (String, u32, u32)| (f.0@, f.1, f.2));
    let mut out: Vec<FunctionBranchCounts> = Vec::new();
    let mut i: usize = 0;
    assert(fv.take(0) =~= Seq::<(Seq<char>, u32, u32)>::empty());
    while i < fns.len()
        invariant
            i <= fns@.len(),
            fv == fns@.map_values(|f: (String, u32, u32)| (f.0@, f.1, f.2)),
            out@.len() == complexity_entries(fv.take(i as int), *index, file_id).len(),
            forall|j: int|
                0 <= j < out@.len() ==> counts_are(
                    #[trigger] out@[j],
                    complexity_entries(fv.take(i as int), *index, file_id)[j],
                ),
        decreases fns@.len() - i,
    {
        assert(fv.take(i + 1).drop_last() =~= fv.take(i as int));
        assert(fv.take(i + 1).last() == fv[i as int]);
        let (s, e) = count_range(index, file_id, fns[i].1, fns[i].2);
        if s > 0 {
            out.push(
                FunctionBranchCounts {
                    function_name: fns[i].0.clone(),
                    line: fns[i].1,
                    static_complexity: s,
                    exercised_complexity: e,
                },
            );
        }
        i = i + 1;
    }
    assert(fv.take(fv.len() as int) =~= fv);
    out
}

} // verus!
