//! Behavioural documentation: the distinct execution paths that the tests
//! take through each function of one source file.
use vstd::prelude::*;
use crate::index::analysis::{extract_functions, functions_from, line_numbers_fit};
use crate::index::types::{branch_key, spec_branch_key, TestTrace};
use crate::sorted::same_text;
use crate::text::{chars_of, str_views};
use crate::types::BranchId;

verus! {

/// One execution path through a function: the tests whose branches in the
/// function are the same (as a multiset of branch keys).
#[derive(Debug, Clone)]
pub struct PathGroup {
    /// Branches taken on this path (with repetitions).
    pub branch_count: usize,
    /// The first test (in trace order) that follows this path.
    pub representative_test: String,
    /// Number of tests following this path.
    pub test_count: usize,
}

/// The paths through one function.
#[derive(Debug, Clone)]
pub struct FunctionPaths {
    pub function_name: String,
    /// First line of the function (1-based).
    pub line: u32,
    /// Most followed path first; among equally followed, fewest branches first.
    pub paths: Vec<PathGroup>,
    /// Number of tests that touch the function.
    pub total_tests: usize,
}

// ───────────────────────── model ─────────────────────────

/// Keys of the branches in file `f` on lines `lo..=hi`, in order, repeated
/// as often as hit.
pub open spec fn path_keys(bs: Seq<BranchId>, f: u64, lo: u32, hi: u32) -> Seq<Seq<char>>
    decreases bs.len(),
{
    if bs.len() == 0 {
        Seq::empty()
    } else {
        let prev = path_keys(bs.drop_last(), f, lo, hi);
        let b = bs.last();
        if b.file_id == f && lo <= b.line <= hi {
            prev.push(spec_branch_key(b))
        } else {
            prev
        }
    }
}

/// How often `x` occurs in `s`.
pub open spec fn occurrences(s: Seq<Seq<char>>, x: Seq<char>) -> nat
    decreases s.len(),
{
    if s.len() == 0 {
        0
    } else {
        occurrences(s.drop_last(), x) + if s.last() == x {
            1nat
        } else {
            0nat
        }
    }
}

/// Two paths are the same: every key occurs in both equally often.
pub open spec fn same_path(a: Seq<Seq<char>>, b: Seq<Seq<char>>) -> bool {
    forall|x: Seq<char>| #[trigger] occurrences(a, x) == occurrences(b, x)
}

/// The path of every trace through file `f`, lines `lo..=hi`.
pub open spec fn trace_paths(ts: Seq<TestTrace>, f: u64, lo: u32, hi: u32) -> Seq<Seq<Seq<char>>> {
    ts.map_values(|t: TestTrace| path_keys(t.branches@, f, lo, hi))
}

/// Trace `g` touches the function and is the first to take its path.
pub open spec fn leads(ps: Seq<Seq<Seq<char>>>, g: int) -> bool {
    &&& 0 <= g < ps.len()
    &&& ps[g].len() > 0
    &&& forall|j: int| 0 <= j < g && (#[trigger] ps[j]).len() > 0 ==> !same_path(ps[j], ps[g])
}

/// How many of the first `n` traces take the path of trace `g`.
pub open spec fn class_size(ps: Seq<Seq<Seq<char>>>, n: int, g: int) -> nat
    decreases n,
{
    if n <= 0 {
        0
    } else {
        class_size(ps, n - 1, g) + if ps[n - 1].len() > 0 && same_path(ps[n - 1], ps[g]) {
            1nat
        } else {
            0nat
        }
    }
}

/// How many of the first `n` traces touch the function.
pub open spec fn touching(ps: Seq<Seq<Seq<char>>>, n: int) -> nat
    decreases n,
{
    if n <= 0 {
        0
    } else {
        touching(ps, n - 1) + if ps[n - 1].len() > 0 {
            1nat
        } else {
            0nat
        }
    }
}

/// `p` comes before `q`: followed more often, or as often with no more branches.
pub open spec fn path_before(p: PathGroup, q: PathGroup) -> bool {
    p.test_count > q.test_count || (p.test_count == q.test_count && p.branch_count
        <= q.branch_count)
}

/// `gs` are the paths of the traces `ts`: one per path taken, each named by
/// its first test, with its number of tests and branches, in order of
/// [`path_before`].
pub open spec fn paths_of(gs: Seq<PathGroup>, ts: Seq<TestTrace>, ps: Seq<Seq<Seq<char>>>) -> bool {
    &&& exists|ls: Seq<int>|
        {
            &&& ls.len() == gs.len()
            &&& ls.no_duplicates()
            &&& forall|i: int|
                0 <= i < ls.len() ==> {
                    &&& leads(ps, #[trigger] ls[i])
                    &&& gs[i].representative_test@ == ts[ls[i]].test_name@
                    &&& gs[i].test_count == class_size(ps, ps.len() as int, ls[i])
                    &&& gs[i].branch_count == ps[ls[i]].len()
                }
            &&& forall|g: int| #[trigger] leads(ps, g) ==> ls.contains(g)
        }
    &&& forall|i: int, j: int| 0 <= i < j < gs.len() ==> path_before(gs[i], gs[j])
}

/// The functions `fns` that some trace touches (within file `f`), in order.
pub open spec fn documented(fns: Seq<(Seq<char>, u32, u32)>, ts: Seq<TestTrace>, f: u64) -> Seq<
    (Seq<char>, u32, u32),
>
    decreases fns.len(),
{
    if fns.len() == 0 {
        Seq::empty()
    } else {
        let prev = documented(fns.drop_last(), ts, f);
        let (n, lo, hi) = fns.last();
        let ps = trace_paths(ts, f, lo, hi);
        if touching(ps, ps.len() as int) > 0 {
            prev.push(fns.last())
        } else {
            prev
        }
    }
}

/// `d` documents the function `e` of file `f`.
pub open spec fn documents(d: FunctionPaths, e: (Seq<char>, u32, u32), ts: Seq<TestTrace>, f: u64) -> bool {
    let ps = trace_paths(ts, f, e.1, e.2);
    &&& d.function_name@ == e.0
    &&& d.line == e.1
    &&& d.total_tests == touching(ps, ps.len() as int)
    &&& paths_of(d.paths@, ts, ps)
}

// ───────────────────────── lemmas ─────────────────────────

/// A key that occurs is in the sequence.
proof fn lemma_occurs(s: Seq<Seq<char>>, x: Seq<char>)
    ensures
        occurrences(s, x) > 0 ==> s.contains(x),
        occurrences(s, x) <= s.len(),
    decreases s.len(),
{
    if s.len() > 0 {
        lemma_occurs(s.drop_last(), x);
        if occurrences(s.drop_last(), x) > 0 {
            let i = choose|i: int| 0 <= i < s.len() - 1 && s.drop_last()[i] == x;
            assert(s[i] == x);
        }
        if s.last() == x {
            assert(s[s.len() - 1] == x);
        }
    }
}

/// Taking the same path is an equivalence.
proof fn lemma_same_path_trans(a: Seq<Seq<char>>, b: Seq<Seq<char>>, c: Seq<Seq<char>>)
    requires
        same_path(a, b),
        same_path(b, c),
    ensures
        same_path(a, c),
        same_path(c, a),
{
    assert forall|x: Seq<char>| #[trigger] occurrences(a, x) == occurrences(c, x) by {
        assert(occurrences(a, x) == occurrences(b, x));
        assert(occurrences(b, x) == occurrences(c, x));
    }
    assert forall|x: Seq<char>| #[trigger] occurrences(c, x) == occurrences(a, x) by {
        assert(occurrences(a, x) == occurrences(b, x));
        assert(occurrences(b, x) == occurrences(c, x));
    }
}

/// A leading trace has no earlier trace on its path.
proof fn lemma_leader_class(ps: Seq<Seq<Seq<char>>>, n: int, g: int)
    requires
        leads(ps, g),
        0 <= n <= g,
    ensures
        class_size(ps, n, g) == 0,
    decreases n,
{
    if n > 0 {
        lemma_leader_class(ps, n - 1, g);
    }
}

/// Counts over a prefix are at most its length.
proof fn lemma_counts_bounded(ps: Seq<Seq<Seq<char>>>, n: int, g: int)
    requires
        0 <= n,
    ensures
        class_size(ps, n, g) <= n,
        touching(ps, n) <= n,
    decreases n,
{
    if n > 0 {
        lemma_counts_bounded(ps, n - 1, g);
    }
}

/// What grouping the first `n` traces by path keeps: each group is a
/// leading trace with the size of its class, leaders ascending, every leader
/// and every touching trace accounted for.
spec fn grouped(ps: Seq<Seq<Seq<char>>>, gs: Seq<(usize, usize)>, n: int) -> bool {
    &&& forall|k: int| 0 <= k < gs.len() ==> leads(ps, (#[trigger] gs[k]).0 as int)
    &&& forall|k: int| 0 <= k < gs.len() ==> (#[trigger] gs[k]).0 < n
    &&& forall|k: int| 0 <= k < gs.len() ==> (#[trigger] gs[k]).1 == class_size(ps, n, gs[k].0 as int)
    &&& forall|k1: int, k2: int| 0 <= k1 < k2 < gs.len() ==> gs[k1].0 < gs[k2].0
    &&& forall|g: int| 0 <= g < n && #[trigger] leads(ps, g) ==> exists|k: int|
        0 <= k < gs.len() && gs[k].0 == g
    &&& forall|j: int|
        0 <= j < n && (#[trigger] ps[j]).len() > 0 ==> exists|k: int|
            0 <= k < gs.len() && same_path(ps[gs[k].0 as int], ps[j])
}

/// A trace that touches nothing changes no group.
proof fn lemma_group_skip(ps: Seq<Seq<Seq<char>>>, gs: Seq<(usize, usize)>, n: int)
    requires
        0 <= n < ps.len(),
        ps[n].len() == 0,
        grouped(ps, gs, n),
    ensures
        grouped(ps, gs, n + 1),
{
    assert(!leads(ps, n));
}

/// A trace on the path of group `q` joins that group.
#[verifier::spinoff_prover]
#[verifier::rlimit(60)]
proof fn lemma_group_join(ps: Seq<Seq<Seq<char>>>, gs: Seq<(usize, usize)>, n: int, q: int)
    requires
        0 <= n < ps.len(),
        ps[n].len() > 0,
        grouped(ps, gs, n),
        0 <= q < gs.len(),
        same_path(ps[gs[q].0 as int], ps[n]),
        gs[q].1 + 1 <= usize::MAX,
    ensures
        grouped(ps, gs.update(q, (gs[q].0, (gs[q].1 + 1) as usize)), n + 1),
{
    let g = gs[q].0 as int;
    let ns = gs.update(q, (gs[q].0, (gs[q].1 + 1) as usize));
    lemma_same_path_trans(ps[g], ps[n], ps[n]);
    assert forall|k2: int| 0 <= k2 < ns.len() implies (#[trigger] ns[k2]).1 == class_size(
        ps,
        n + 1,
        ns[k2].0 as int,
    ) by {
        if k2 != q {
            let g2 = gs[k2].0 as int;
            if same_path(ps[n], ps[g2]) {
                lemma_same_path_trans(ps[g], ps[n], ps[g2]);
                if g2 < g {
                    assert(!same_path(ps[g2], ps[g]));
                } else {
                    assert(g2 != g);
                    assert(!same_path(ps[g], ps[g2]));
                }
            }
        }
    }
    assert(!leads(ps, n)) by {
        assert(ps[g].len() > 0);
    }
    assert forall|j: int| 0 <= j < n + 1 && (#[trigger] ps[j]).len() > 0 implies exists|k2: int|
        0 <= k2 < ns.len() && same_path(ps[ns[k2].0 as int], ps[j]) by {
        if j == n {
            assert(ns[q].0 == g);
        } else {
            let k2 = choose|k2: int| 0 <= k2 < gs.len() && same_path(ps[gs[k2].0 as int], ps[j]);
            assert(ns[k2].0 == gs[k2].0);
        }
    }
    assert forall|g2: int| 0 <= g2 < n + 1 && #[trigger] leads(ps, g2) implies exists|k2: int|
        0 <= k2 < ns.len() && ns[k2].0 == g2 by {
        let k2 = choose|k2: int| 0 <= k2 < gs.len() && gs[k2].0 == g2;
        assert(ns[k2].0 == gs[k2].0);
    }
}

/// A trace on no group's path starts a group of its own.
#[verifier::spinoff_prover]
#[verifier::rlimit(60)]
proof fn lemma_group_new(ps: Seq<Seq<Seq<char>>>, gs: Seq<(usize, usize)>, n: int)
    requires
        0 <= n < ps.len(),
        n <= usize::MAX,
        ps[n].len() > 0,
        grouped(ps, gs, n),
        forall|q: int| 0 <= q < gs.len() ==> !same_path(ps[(#[trigger] gs[q]).0 as int], ps[n]),
    ensures
        leads(ps, n),
        grouped(ps, gs.push((n as usize, 1usize)), n + 1),
{
    assert forall|j: int| 0 <= j < n && (#[trigger] ps[j]).len() > 0 implies !same_path(
        ps[j],
        ps[n],
    ) by {
        let k2 = choose|k2: int| 0 <= k2 < gs.len() && same_path(ps[gs[k2].0 as int], ps[j]);
        if same_path(ps[j], ps[n]) {
            lemma_same_path_trans(ps[gs[k2].0 as int], ps[j], ps[n]);
        }
    }
    lemma_leader_class(ps, n, n);
    let ns = gs.push((n as usize, 1usize));
    assert forall|k2: int| 0 <= k2 < ns.len() implies (#[trigger] ns[k2]).1 == class_size(
        ps,
        n + 1,
        ns[k2].0 as int,
    ) by {
        if k2 < gs.len() {
            let g2 = gs[k2].0 as int;
            assert(ns[k2] == gs[k2]);
            if same_path(ps[n], ps[g2]) {
                lemma_same_path_trans(ps[g2], ps[n], ps[n]);
            }
        } else {
            lemma_same_path_trans(ps[n], ps[n], ps[n]);
        }
    }
    assert forall|j: int| 0 <= j < n + 1 && (#[trigger] ps[j]).len() > 0 implies exists|k2: int|
        0 <= k2 < ns.len() && same_path(ps[ns[k2].0 as int], ps[j]) by {
        if j == n {
            assert(ns[gs.len() as int].0 == n);
            lemma_same_path_trans(ps[n], ps[n], ps[n]);
        } else {
            let k2 = choose|k2: int| 0 <= k2 < gs.len() && same_path(ps[gs[k2].0 as int], ps[j]);
            assert(ns[k2] == gs[k2]);
        }
    }
    assert forall|g2: int| 0 <= g2 < n + 1 && #[trigger] leads(ps, g2) implies exists|k2: int|
        0 <= k2 < ns.len() && ns[k2].0 == g2 by {
        if g2 == n {
            assert(ns[gs.len() as int].0 == n);
        } else {
            let k2 = choose|k2: int| 0 <= k2 < gs.len() && gs[k2].0 == g2;
            assert(ns[k2] == gs[k2]);
        }
    }
}

// ───────────────────────── code ─────────────────────────

/// The keys of the branches of one trace in file `f`, lines `lo..=hi`.
fn path_keys_exec(bs: &Vec<BranchId>, f: u64, lo: u32, hi: u32) -> (r: Vec<Vec<char>>)
    ensures
        r@.map_values(|v: Vec<char>| v@) == path_keys(bs@, f, lo, hi),
{
    let mut r: Vec<Vec<char>> = Vec::new();
    let mut i: usize = 0;
    assert(bs@.take(0) =~= Seq::<BranchId>::empty());
    assert(r@.map_values(|v: Vec<char>| v@) =~= Seq::<Seq<char>>::empty());
    while i < bs.len()
        invariant
            i <= bs@.len(),
            r@.map_values(|v: Vec<char>| v@) == path_keys(bs@.take(i as int), f, lo, hi),
        decreases bs@.len() - i,
    {
        assert(bs@.take(i + 1).drop_last() =~= bs@.take(i as int));
        assert(bs@.take(i + 1).last() == bs@[i as int]);
        let b = bs[i];
        if b.file_id == f && lo <= b.line && b.line <= hi {
            let k = branch_key(&b);
            let kc = chars_of(k.as_str());
            let ghost before = r@.map_values(|v: Vec<char>| v@);
            r.push(kc);
            assert(r@.map_values(|v: Vec<char>| v@) =~= before.push(spec_branch_key(b)));
        }
        i = i + 1;
    }
    assert(bs@.take(bs@.len() as int) =~= bs@);
    r
}

/// How often `x` occurs in `s`.
fn occurrences_exec(s: &Vec<Vec<char>>, x: &Vec<char>) -> (n: usize)
    ensures
        n == occurrences(s@.map_values(|v: Vec<char>| v@), x@),
{
    let ghost sv = s@.map_values(|v: Vec<char>| v@);
    let mut n: usize = 0;
    let mut i: usize = 0;
    assert(sv.take(0) =~= Seq::<Seq<char>>::empty());
    while i < s.len()
        invariant
            i <= s@.len(),
            sv == s@.map_values(|v: Vec<char>| v@),
            n == occurrences(sv.take(i as int), x@),
            n <= i,
        decreases s@.len() - i,
    {
        assert(sv.take(i + 1).drop_last() =~= sv.take(i as int));
        assert(sv.take(i + 1).last() == s@[i as int]@);
        if same_text(&s[i], x) {
            n = n + 1;
        }
        i = i + 1;
    }
    assert(sv.take(sv.len() as int) =~= sv);
    n
}

/// Whether two traces take the same path (see [`same_path`]).
fn same_path_exec(a: &Vec<Vec<char>>, b: &Vec<Vec<char>>) -> (r: bool)
    ensures
        r == same_path(a@.map_values(|v: Vec<char>| v@), b@.map_values(|v: Vec<char>| v@)),
{
    let ghost av = a@.map_values(|v: Vec<char>| v@);
    let ghost bv = b@.map_values(|v: Vec<char>| v@);
    let mut i: usize = 0;
    while i < a.len()
        invariant
            i <= a@.len(),
            av == a@.map_values(|v: Vec<char>| v@),
            bv == b@.map_values(|v: Vec<char>| v@),
            forall|k: int| 0 <= k < i ==> occurrences(av, #[trigger] av[k]) == occurrences(bv, av[k]),
        decreases a@.len() - i,
    {
        if occurrences_exec(a, &a[i]) != occurrences_exec(b, &a[i]) {
            return false;
        }
        i = i + 1;
    }
    let mut j: usize = 0;
    while j < b.len()
        invariant
            j <= b@.len(),
            av == a@.map_values(|v: Vec<char>| v@),
            bv == b@.map_values(|v: Vec<char>| v@),
            forall|k: int| 0 <= k < av.len() ==> occurrences(av, #[trigger] av[k]) == occurrences(bv, av[k]),
            forall|k: int| 0 <= k < j ==> occurrences(av, #[trigger] bv[k]) == occurrences(bv, bv[k]),
        decreases b@.len() - j,
    {
        if occurrences_exec(a, &b[j]) != occurrences_exec(b, &b[j]) {
            return false;
        }
        j = j + 1;
    }
    assert forall|x: Seq<char>| #[trigger] occurrences(av, x) == occurrences(bv, x) by {
        lemma_occurs(av, x);
        lemma_occurs(bv, x);
        if occurrences(av, x) > 0 {
            let k = choose|k: int| 0 <= k < av.len() && av[k] == x;
        } else if occurrences(bv, x) > 0 {
            let k = choose|k: int| 0 <= k < bv.len() && bv[k] == x;
        }
    }
    true
}

/// Inserts `d` after every path that comes before it or ties with it.
fn insert_path(ds: &mut Vec<PathGroup>, d: PathGroup) -> (p: usize)
    requires
        forall|i: int, j: int| 0 <= i < j < old(ds)@.len() ==> path_before(old(ds)@[i], old(ds)@[j]),
    ensures
        p <= old(ds)@.len(),
        final(ds)@ == old(ds)@.insert(p as int, d),
        forall|i: int, j: int|
            0 <= i < j < final(ds)@.len() ==> path_before(final(ds)@[i], final(ds)@[j]),
{
    let mut pos: usize = 0;
    while pos < ds.len() && (ds[pos].test_count > d.test_count || (ds[pos].test_count
        == d.test_count && ds[pos].branch_count <= d.branch_count))
        invariant
            pos <= ds@.len(),
            ds@ == old(ds)@,
            forall|x: int| 0 <= x < pos ==> path_before(ds@[x], d),
        decreases ds@.len() - pos,
    {
        pos = pos + 1;
    }
    let ghost rb = ds@;
    ds.insert(pos, d);
    assert(ds@ == rb.insert(pos as int, d));
    assert forall|i: int, j: int| 0 <= i < j < ds@.len() implies path_before(ds@[i], ds@[j]) by {
        let fi = if i < pos { rb[i] } else if i == pos { d } else { rb[i - 1] };
        let fj = if j < pos { rb[j] } else if j == pos { d } else { rb[j - 1] };
        assert(ds@[i] == fi);
        assert(ds@[j] == fj);
        if i == pos && pos < rb.len() {
            assert(!path_before(rb[pos as int], d));
            if j - 1 > pos {
                assert(path_before(rb[pos as int], rb[j - 1]));
            }
        }
    }
    pos
}

/// Puts trace `n` into the group of its path, or into a new group.
fn add_to_groups(
    sigs: &Vec<Vec<Vec<char>>>,
    groups: &mut Vec<(usize, usize)>,
    n: usize,
    Ghost(ps): Ghost<Seq<Seq<Seq<char>>>>,
)
    requires
        n < sigs@.len(),
        sigs@.len() == ps.len(),
        forall|k: int| 0 <= k < sigs@.len() ==> (#[trigger] sigs@[k])@.map_values(|v: Vec<char>| v@) == ps[k],
        ps[n as int].len() > 0,
        grouped(ps, old(groups)@, n as int),
    ensures
        grouped(ps, final(groups)@, n + 1),
{
    let ln = sigs.len();
    let mut found: Option<usize> = None;
    let mut k: usize = 0;
    while k < groups.len()
        invariant
            k <= groups@.len(),
            groups@ == old(groups)@,
            n < sigs@.len(),
            sigs@.len() == ps.len(),
            forall|q: int| 0 <= q < sigs@.len() ==> (#[trigger] sigs@[q])@.map_values(|v: Vec<char>| v@) == ps[q],
            grouped(ps, groups@, n as int),
            match found {
                Some(q) => q < groups@.len() && same_path(ps[groups@[q as int].0 as int], ps[n as int]),
                None => forall|q: int| 0 <= q < k ==> !same_path(ps[(#[trigger] groups@[q]).0 as int], ps[n as int]),
            },
        decreases groups@.len() - k,
    {
        if found.is_none() {
            let g = groups[k].0;
            assert(groups@[k as int].0 < n);
            if same_path_exec(&sigs[g], &sigs[n]) {
                found = Some(k);
            }
        }
        k = k + 1;
    }
    match found {
        Some(q) => {
            let (g, c) = groups[q];
            proof {
                lemma_counts_bounded(ps, n as int, g as int);
                assert(c <= n);
                assert(n < ln);
                lemma_group_join(ps, groups@, n as int, q as int);
            }
            groups.set(q, (g, c + 1));
        },
        None => {
            proof {
                lemma_group_new(ps, groups@, n as int);
            }
            groups.push((n, 1));
        },
    }
}

/// The paths through file `f`, lines `lo..=hi`, of the traces `ts`, and the
/// number of traces that touch those lines.
fn paths_through(ts: &Vec<TestTrace>, f: u64, lo: u32, hi: u32) -> (r: (Vec<PathGroup>, usize))
    ensures
        paths_of(r.0@, ts@, trace_paths(ts@, f, lo, hi)),
        r.1 == touching(trace_paths(ts@, f, lo, hi), ts@.len() as int),
{
    let ghost ps = trace_paths(ts@, f, lo, hi);
    let mut sigs: Vec<Vec<Vec<char>>> = Vec::new();
    let mut i: usize = 0;
    while i < ts.len()
        invariant
            i <= ts@.len(),
            ps == trace_paths(ts@, f, lo, hi),
            sigs@.len() == i,
            forall|k: int| 0 <= k < i ==> (#[trigger] sigs@[k])@.map_values(|v: Vec<char>| v@) == ps[k],
        decreases ts@.len() - i,
    {
        let s = path_keys_exec(&ts[i].branches, f, lo, hi);
        sigs.push(s);
        i = i + 1;
    }
    // Group the traces by path: (first trace, number of traces).
    let mut groups: Vec<(usize, usize)> = Vec::new();
    let mut total: usize = 0;
    let mut n: usize = 0;
    while n < sigs.len()
        invariant
            n <= sigs@.len(),
            sigs@.len() == ps.len(),
            ps.len() == ts@.len(),
            forall|k: int| 0 <= k < sigs@.len() ==> (#[trigger] sigs@[k])@.map_values(|v: Vec<char>| v@) == ps[k],
            total == touching(ps, n as int),
            grouped(ps, groups@, n as int),
        decreases sigs@.len() - n,
    {
        proof {
            lemma_counts_bounded(ps, n as int, 0);
        }
        assert(sigs@[n as int]@.map_values(|v: Vec<char>| v@) == ps[n as int]);
        if sigs[n].len() > 0 {
            add_to_groups(&sigs, &mut groups, n, Ghost(ps));
            total = total + 1;
        } else {
            proof {
                lemma_group_skip(ps, groups@, n as int);
            }
        }
        n = n + 1;
    }
    // One path per group, in order.
    let mut out: Vec<PathGroup> = Vec::new();
    let ghost mut ls: Seq<int> = Seq::empty();
    let mut k: usize = 0;
    while k < groups.len()
        invariant
            k <= groups@.len(),
            sigs@.len() == ps.len(),
            ps.len() == ts@.len(),
            forall|q: int| 0 <= q < sigs@.len() ==> (#[trigger] sigs@[q])@.map_values(|v: Vec<char>| v@) == ps[q],
            forall|q: int| 0 <= q < groups@.len() ==> leads(ps, (#[trigger] groups@[q]).0 as int),
            forall|q: int|
                0 <= q < groups@.len() ==> (#[trigger] groups@[q]).1 == class_size(ps, ps.len() as int, groups@[q].0 as int),
            forall|k1: int, k2: int| 0 <= k1 < k2 < groups@.len() ==> groups@[k1].0 < groups@[k2].0,
            ls.len() == out@.len(),
            ls.len() == k,
            ls.no_duplicates(),
            forall|x: int| ls.contains(x) <==> exists|q: int| 0 <= q < k && (#[trigger] groups@[q]).0 == x,
            forall|a: int|
                0 <= a < ls.len() ==> {
                    &&& leads(ps, #[trigger] ls[a])
                    &&& out@[a].representative_test@ == ts@[ls[a]].test_name@
                    &&& out@[a].test_count == class_size(ps, ps.len() as int, ls[a])
                    &&& out@[a].branch_count == ps[ls[a]].len()
                },
            forall|a: int, b: int| 0 <= a < b < out@.len() ==> path_before(out@[a], out@[b]),
        decreases groups@.len() - k,
    {
        let (g, c) = groups[k];
        assert(sigs@[g as int]@.map_values(|v: Vec<char>| v@) == ps[g as int]);
        let d = PathGroup {
            branch_count: sigs[g].len(),
            representative_test: ts[g].test_name.clone(),
            test_count: c,
        };
        let ghost before = out@;
        let ghost lb = ls;
        let p = insert_path(&mut out, d);
        proof {
            ls = lb.insert(p as int, g as int);
            assert(!lb.contains(g as int)) by {
                if lb.contains(g as int) {
                    let q = choose|q: int| 0 <= q < k && (#[trigger] groups@[q]).0 == g as int;
                    assert(groups@[q].0 < groups@[k as int].0);
                }
            }
            assert forall|a: int, b: int| 0 <= a < b < ls.len() implies ls[a] != ls[b] by {
                let la = if a < p { lb[a] } else if a == p { g as int } else { lb[a - 1] };
                let lbb = if b < p { lb[b] } else if b == p { g as int } else { lb[b - 1] };
                assert(ls[a] == la);
                assert(ls[b] == lbb);
                if a == p {
                    assert(lb.contains(lbb));
                }
                if b == p {
                    assert(lb.contains(la));
                }
            }
            assert forall|x: int| ls.contains(x) <==> exists|q: int| 0 <= q < k + 1 && (#[trigger] groups@[q]).0 == x by {
                if ls.contains(x) {
                    let a = choose|a: int| 0 <= a < ls.len() && ls[a] == x;
                    if a < p {
                        assert(lb[a] == x);
                        assert(lb.contains(x));
                    } else if a > p {
                        assert(lb[a - 1] == x);
                        assert(lb.contains(x));
                    } else {
                        assert(groups@[k as int].0 == x);
                    }
                }
                if exists|q: int| 0 <= q < k + 1 && (#[trigger] groups@[q]).0 == x {
                    let q = choose|q: int| 0 <= q < k + 1 && (#[trigger] groups@[q]).0 == x;
                    if q == k {
                        assert(ls[p as int] == x);
                    } else {
                        assert(lb.contains(x));
                        let a = choose|a: int| 0 <= a < lb.len() && lb[a] == x;
                        if a < p {
                            assert(ls[a] == x);
                        } else {
                            assert(ls[a + 1] == x);
                        }
                    }
                }
            }
            assert forall|a: int| 0 <= a < ls.len() implies {
                &&& leads(ps, #[trigger] ls[a])
                &&& out@[a].representative_test@ == ts@[ls[a]].test_name@
                &&& out@[a].test_count == class_size(ps, ps.len() as int, ls[a])
                &&& out@[a].branch_count == ps[ls[a]].len()
            } by {
                if a < p {
                    assert(out@[a] == before[a]);
                    assert(ls[a] == lb[a]);
                } else if a > p {
                    assert(out@[a] == before[a - 1]);
                    assert(ls[a] == lb[a - 1]);
                } else {
                    assert(out@[a] == d);
                    assert(ls[a] == g);
                }
            }
        }
        k = k + 1;
    }
    proof {
        assert forall|g: int| #[trigger] leads(ps, g) implies ls.contains(g) by {
            let q = choose|q: int| 0 <= q < groups@.len() && groups@[q].0 == g;
            assert(groups@[q].0 == g);
        }
    }
    (out, total)
}

/// For each function declared in `lines` (the source of file `file_id`) that
/// some test touches, in order: its name, first line, the distinct paths the
/// tests take through it (see [`paths_of`]) and the number of touching tests.
pub fn function_paths(traces: &Vec<TestTrace>, file_id: u64, lines: &[&str], language: crate::types::Language) -> (r: Vec<FunctionPaths>)
    requires
        line_numbers_fit(str_views(lines@), language),
    ensures
        ({
            let es = documented(functions_from(str_views(lines@), language, 0, None), traces@, file_id);
            &&& r@.len() == es.len()
            &&& forall|i: int| 0 <= i < r@.len() ==> documents(#[trigger] r@[i], es[i], traces@, file_id)
        }),
{
    let fns = extract_functions(lines, language);
    let ghost fv = fns@.map_values(|f: (String, u32, u32)| (f.0@, f.1, f.2));
    let mut out: Vec<FunctionPaths> = Vec::new();
    let mut i: usize = 0;
    assert(fv.take(0) =~= Seq::<(Seq<char>, u32, u32)>::empty());
    while i < fns.len()
        invariant
            i <= fns@.len(),
            fv == fns@.map_values(|f: (String, u32, u32)| (f.0@, f.1, f.2)),
            out@.len() == documented(fv.take(i as int), traces@, file_id).len(),
            forall|j: int|
                0 <= j < out@.len() ==> documents(
                    #[trigger] out@[j],
                    documented(fv.take(i as int), traces@, file_id)[j],
                    traces@,
                    file_id,
                ),
        decreases fns@.len() - i,
    {
        assert(fv.take(i + 1).drop_last() =~= fv.take(i as int));
        assert(fv.take(i + 1).last() == fv[i as int]);
        let (paths, total) = paths_through(traces, file_id, fns[i].1, fns[i].2);
        if total > 0 {
            out.push(
                FunctionPaths {
                    function_name: fns[i].0.clone(),
                    line: fns[i].1,
                    paths,
                    total_tests: total,
                },
            );
        }
        i = i + 1;
    }
    assert(fv.take(fv.len() as int) =~= fv);
    out
}

} // verus!
