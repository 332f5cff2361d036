//! Attack surface: what the tests of chosen entry points reach.
use vstd::prelude::*;
use crate::fuzz::llm_mutator::{hex_digit, hex_digit_exec};
use crate::index::types::{branch_key, spec_branch_key, BranchIndex, BranchProfile, TestTrace};
use crate::strmap::StrSet;
use crate::text::{chars_of, contains, contains_exec, push_str, string_of};
use crate::types::BranchId;

verus! {

broadcast use vstd::std_specs::hash::group_hash_axioms;

/// One file reached from the entry-point tests.
#[derive(Debug, Clone)]
pub struct ReachableFile {
    pub file_path: String,
    pub reachable_branches: usize,
    pub total_branches_in_file: usize,
}

/// What the tests whose name contains `entry_pattern` reach.
#[derive(Debug, Clone)]
pub struct AttackSurfaceReport {
    pub entry_pattern: String,
    pub entry_tests: usize,
    pub reachable_branches: usize,
    pub reachable_files: usize,
    pub total_branches: usize,
    pub reachable_file_details: Vec<ReachableFile>,
}

// ───────────────────────── model ─────────────────────────

/// The traces whose test name contains `pattern`, in order.
pub open spec fn entry_traces(ts: Seq<TestTrace>, pattern: Seq<char>) -> Seq<TestTrace>
    decreases ts.len(),
{
    if ts.len() == 0 {
        Seq::empty()
    } else {
        let prev = entry_traces(ts.drop_last(), pattern);
        if contains(ts.last().test_name@, pattern) {
            prev.push(ts.last())
        } else {
            prev
        }
    }
}

/// The branches of the traces, one after the other.
pub open spec fn trace_branches(ts: Seq<TestTrace>) -> Seq<BranchId>
    decreases ts.len(),
{
    if ts.len() == 0 {
        Seq::empty()
    } else {
        trace_branches(ts.drop_last()) + ts.last().branches@
    }
}

/// The keys of the branches (of those in file `f`, where `f` is given).
pub open spec fn keys_in(bs: Seq<BranchId>, f: Option<u64>) -> Set<Seq<char>>
    decreases bs.len(),
{
    if bs.len() == 0 {
        Set::empty()
    } else {
        let prev = keys_in(bs.drop_last(), f);
        if f is None || f == Some(bs.last().file_id) {
            prev.insert(spec_branch_key(bs.last()))
        } else {
            prev
        }
    }
}

/// The files of the branches, each once, in order of first appearance.
pub open spec fn files_of(bs: Seq<BranchId>) -> Seq<u64>
    decreases bs.len(),
{
    if bs.len() == 0 {
        Seq::empty()
    } else {
        let prev = files_of(bs.drop_last());
        if prev.contains(bs.last().file_id) {
            prev
        } else {
            prev.push(bs.last().file_id)
        }
    }
}

/// How many of the profiles listed in `order` are of a branch in file `f`.
pub open spec fn profiles_in_file(
    order: Seq<Seq<char>>,
    m: Map<Seq<char>, BranchProfile>,
    f: u64,
) -> nat
    decreases order.len(),
{
    if order.len() == 0 {
        0
    } else {
        profiles_in_file(order.drop_last(), m, f) + if m[order.last()].branch.file_id == f {
            1nat
        } else {
            0nat
        }
    }
}

/// `k` lower-case hexadecimal digits of `n` (the last `k` digits, zero-padded).
pub open spec fn hex_digits(n: u64, k: nat) -> Seq<char>
    decreases k,
{
    if k == 0 {
        Seq::empty()
    } else {
        hex_digits(n / 16, (k - 1) as nat).push(hex_digit((n % 16) as u8))
    }
}

/// The name a file is shown under: its path, else `<` and its id in 16
/// hexadecimal digits and `>`.
pub open spec fn file_label(paths: Map<u64, String>, f: u64) -> Seq<char> {
    if paths.contains_key(f) {
        paths[f]@
    } else {
        "<"@ + hex_digits(f, 16) + ">"@
    }
}

/// `d` describes file `f`: the keys of its reached branches, its profiles,
/// its name.
pub open spec fn describes_file(d: ReachableFile, f: u64, bs: Seq<BranchId>, idx: BranchIndex) -> bool {
    &&& d.reachable_branches == keys_in(bs, Some(f)).len()
    &&& d.total_branches_in_file == profiles_in_file(idx.profiles.key_order(), idx.profiles@, f)
    &&& d.file_path@ == file_label(idx.file_paths@, f)
}

/// Files never repeat in [`files_of`].
proof fn lemma_files_of_distinct(bs: Seq<BranchId>)
    ensures
        files_of(bs).no_duplicates(),
        forall|x: u64| #[trigger] files_of(bs).contains(x) <==> exists|i: int| 0 <= i < bs.len() && bs[i].file_id == x,
    decreases bs.len(),
{
    if bs.len() > 0 {
        let bd = bs.drop_last();
        lemma_files_of_distinct(bd);
        let prev = files_of(bd);
        let y = bs.last().file_id;
        assert(bs[bs.len() - 1].file_id == y);
        assert forall|x: u64| #[trigger] files_of(bs).contains(x) <==> exists|i: int|
            0 <= i < bs.len() && bs[i].file_id == x by {
            if prev.contains(x) {
                let i = choose|i: int| 0 <= i < bd.len() && bd[i].file_id == x;
                assert(bs[i].file_id == x);
                if !prev.contains(y) {
                    assert(prev.push(y)[prev.index_of(x)] == x);
                }
            } else if x == y {
                if !prev.contains(y) {
                    assert(prev.push(y)[prev.len() as int] == x);
                }
            } else {
                assert(files_of(bs).contains(x) ==> prev.contains(x)) by {
                    if files_of(bs).contains(x) && !prev.contains(y) {
                        let j = choose|j: int| 0 <= j < prev.len() + 1 && #[trigger] prev.push(y)[j] == x;
                        if j < prev.len() {
                            assert(prev[j] == x);
                        }
                    }
                }
                assert((exists|i: int| 0 <= i < bs.len() && bs[i].file_id == x) ==> prev.contains(x)) by {
                    if exists|i: int| 0 <= i < bs.len() && bs[i].file_id == x {
                        let i = choose|i: int| 0 <= i < bs.len() && bs[i].file_id == x;
                        assert(i < bs.len() - 1);
                        assert(bd[i].file_id == x);
                    }
                }
            }
        }
        if !prev.contains(y) {
            assert forall|a: int, b: int| 0 <= a < b < prev.len() + 1 implies prev.push(y)[a] != prev.push(y)[b] by {
                if b == prev.len() {
                    assert(prev.push(y)[a] == prev[a]);
                }
            }
        }
    }
}

// ───────────────────────── code ─────────────────────────

/// `k` hexadecimal digits of `n` (see [`hex_digits`]).
fn hex_digits_exec(n: u64, k: u64) -> (r: Vec<char>)
    ensures
        r@ == hex_digits(n, k as nat),
    decreases k,
{
    if k == 0 {
        Vec::new()
    } else {
        let mut v = hex_digits_exec(n / 16, k - 1);
        let d = (n % 16) as u8;
        v.push(hex_digit_exec(d));
        v
    }
}

/// The label of file `f` (see [`file_label`]).
fn label_of(idx: &BranchIndex, f: u64) -> (s: String)
    ensures
        s@ == file_label(idx.file_paths@, f),
{
    match idx.file_paths.get(&f) {
        Some(p) => p.clone(),
        None => {
            let mut out: Vec<char> = Vec::new();
            push_str(&mut out, "<");
            let h = hex_digits_exec(f, 16);
            let ghost before = out@;
            let mut i: usize = 0;
            while i < h.len()
                invariant
                    i <= h@.len(),
                    out@ == before + h@.take(i as int),
                decreases h@.len() - i,
            {
                out.push(h[i]);
                assert(h@.take(i + 1) =~= h@.take(i as int).push(h@[i as int]));
                i = i + 1;
            }
            assert(h@.take(h@.len() as int) =~= h@);
            push_str(&mut out, ">");
            string_of(&out)
        },
    }
}

/// Appends the branches `bs`.
fn append_branches(out: &mut Vec<BranchId>, bs: &Vec<BranchId>)
    ensures
        final(out)@ == old(out)@ + bs@,
{
    let mut i: usize = 0;
    while i < bs.len()
        invariant
            i <= bs@.len(),
            out@ == old(out)@ + bs@.take(i as int),
        decreases bs@.len() - i,
    {
        out.push(bs[i]);
        assert(bs@.take(i + 1) =~= bs@.take(i as int).push(bs@[i as int]));
        i = i + 1;
    }
    assert(bs@.take(bs@.len() as int) =~= bs@);
}

/// The number of different keys among the branches (of file `f`, where given).
fn count_keys(bs: &Vec<BranchId>, f: Option<u64>) -> (n: usize)
    ensures
        n == keys_in(bs@, f).len(),
{
    let mut ks = StrSet::new();
    let mut i: usize = 0;
    assert(bs@.take(0) =~= Seq::<BranchId>::empty());
    while i < bs.len()
        invariant
            i <= bs@.len(),
            ks@ == keys_in(bs@.take(i as int), f),
        decreases bs@.len() - i,
    {
        assert(bs@.take(i + 1).drop_last() =~= bs@.take(i as int));
        assert(bs@.take(i + 1).last() == bs@[i as int]);
        let take = match f {
            None => true,
            Some(x) => bs[i].file_id == x,
        };
        if take {
            ks.insert(branch_key(&bs[i]));
        }
        i = i + 1;
    }
    assert(bs@.take(bs@.len() as int) =~= bs@);
    ks.len()
}

/// The number of profiles of `idx` whose branch is in file `f`.
fn count_profiles(idx: &BranchIndex, f: u64) -> (n: usize)
    ensures
        n == profiles_in_file(idx.profiles.key_order(), idx.profiles@, f),
{
    let len = idx.profiles.len();
    let ghost order = idx.profiles.key_order();
    let mut n: usize = 0;
    let mut i: usize = 0;
    assert(order.take(0) =~= Seq::<Seq<char>>::empty());
    while i < len
        invariant
            i <= len,
            len == order.len(),
            order == idx.profiles.key_order(),
            n == profiles_in_file(order.take(i as int), idx.profiles@, f),
            n <= i,
        decreases len - i,
    {
        assert(order.take(i + 1).drop_last() =~= order.take(i as int));
        assert(order.take(i + 1).last() == order[i as int]);
        let (_, p) = idx.profiles.entry_at(i);
        if p.branch.file_id == f {
            n = n + 1;
        }
        i = i + 1;
    }
    assert(order.take(len as int) =~= order);
    n
}

/// Whether `x` is among `v`.
fn has_file(v: &Vec<u64>, x: u64) -> (b: bool)
    ensures
        b == v@.contains(x),
{
    let mut i: usize = 0;
    while i < v.len()
        invariant
            i <= v@.len(),
            forall|j: int| 0 <= j < i ==> v@[j] != x,
        decreases v@.len() - i,
    {
        if v[i] == x {
            assert(v@[i as int] == x);
            return true;
        }
        i = i + 1;
    }
    false
}

/// The files of the branches in order of first appearance (see [`files_of`]).
fn distinct_files(bs: &Vec<BranchId>) -> (fs: Vec<u64>)
    ensures
        fs@ == files_of(bs@),
{
    let mut fs: Vec<u64> = Vec::new();
    let mut i: usize = 0;
    assert(bs@.take(0) =~= Seq::<BranchId>::empty());
    while i < bs.len()
        invariant
            i <= bs@.len(),
            fs@ == files_of(bs@.take(i as int)),
        decreases bs@.len() - i,
    {
        assert(bs@.take(i + 1).drop_last() =~= bs@.take(i as int));
        assert(bs@.take(i + 1).last() == bs@[i as int]);
        if !has_file(&fs, bs[i].file_id) {
            fs.push(bs[i].file_id);
        }
        i = i + 1;
    }
    assert(bs@.take(bs@.len() as int) =~= bs@);
    fs
}

/// Inserts `d` after every entry that reaches at least as many branches.
fn insert_by_reach(ds: &mut Vec<ReachableFile>, d: ReachableFile) -> (p: usize)
    requires
        forall|i: int, j: int|
            0 <= i < j < old(ds)@.len() ==> old(ds)@[i].reachable_branches
                >= old(ds)@[j].reachable_branches,
    ensures
        p <= old(ds)@.len(),
        final(ds)@ == old(ds)@.insert(p as int, d),
        forall|i: int, j: int|
            0 <= i < j < final(ds)@.len() ==> final(ds)@[i].reachable_branches
                >= final(ds)@[j].reachable_branches,
{
    let n = d.reachable_branches;
    let mut pos: usize = 0;
    while pos < ds.len() && ds[pos].reachable_branches >= n
        invariant
            pos <= ds@.len(),
            ds@ == old(ds)@,
            forall|x: int| 0 <= x < pos ==> ds@[x].reachable_branches >= n,
        decreases ds@.len() - pos,
    {
        pos = pos + 1;
    }
    let ghost rb = ds@;
    ds.insert(pos, d);
    assert(ds@ == rb.insert(pos as int, d));
    assert forall|i: int, j: int| 0 <= i < j < ds@.len() implies ds@[i].reachable_branches
        >= ds@[j].reachable_branches by {
        let fi = if i < pos { rb[i] } else if i == pos { d } else { rb[i - 1] };
        let fj = if j < pos { rb[j] } else if j == pos { d } else { rb[j - 1] };
        assert(ds@[i] == fi);
        assert(ds@[j] == fj);
        if i == pos && pos < rb.len() {
            assert(rb[pos as int].reachable_branches < n);
            if j - 1 > pos {
                assert(rb[pos as int].reachable_branches >= rb[j - 1].reachable_branches);
            }
        }
    }
    pos
}

/// Maps the attack surface from the tests whose name contains
/// `entry_pattern`: how many such tests there are, the different branches and
/// files they reach, and for each such file (most reached branches first) its
/// name, its reached branches and the branches profiled in it.
pub fn analyze_attack_surface(index: &BranchIndex, entry_pattern: &str) -> (r: AttackSurfaceReport)
    ensures
        ({
            let eb = trace_branches(entry_traces(index.traces@, entry_pattern@));
            &&& r.entry_pattern@ == entry_pattern@
            &&& r.entry_tests == entry_traces(index.traces@, entry_pattern@).len()
            &&& r.reachable_branches == keys_in(eb, None).len()
            &&& r.reachable_files == files_of(eb).len()
            &&& r.total_branches == index.total_branches
            &&& exists|fs: Seq<u64>|
                {
                    &&& fs.len() == r.reachable_file_details@.len()
                    &&& fs.no_duplicates()
                    &&& fs.to_set() == files_of(eb).to_set()
                    &&& forall|i: int|
                        0 <= i < fs.len() ==> describes_file(
                            #[trigger] r.reachable_file_details@[i],
                            fs[i],
                            eb,
                            *index,
                        )
                }
            &&& forall|i: int, j: int|
                0 <= i < j < r.reachable_file_details@.len()
                    ==> r.reachable_file_details@[i].reachable_branches
                    >= r.reachable_file_details@[j].reachable_branches
        }),
{
    let ts = &index.traces;
    let pc = chars_of(entry_pattern);
    let mut eb: Vec<BranchId> = Vec::new();
    let mut entry_tests: usize = 0;
    let mut i: usize = 0;
    assert(ts@.take(0) =~= Seq::<TestTrace>::empty());
    while i < ts.len()
        invariant
            i <= ts@.len(),
            ts@ == index.traces@,
            pc@ == entry_pattern@,
            eb@ == trace_branches(entry_traces(ts@.take(i as int), pc@)),
            entry_tests == entry_traces(ts@.take(i as int), pc@).len(),
            entry_tests <= i,
        decreases ts@.len() - i,
    {
        assert(ts@.take(i + 1).drop_last() =~= ts@.take(i as int));
        assert(ts@.take(i + 1).last() == ts@[i as int]);
        let name = chars_of(ts[i].test_name.as_str());
        let ghost et = entry_traces(ts@.take(i as int), pc@);
        if contains_exec(&name, &pc) {
            append_branches(&mut eb, &ts[i].branches);
            entry_tests = entry_tests + 1;
            assert(et.push(ts@[i as int]).drop_last() =~= et);
        }
        i = i + 1;
    }
    assert(ts@.take(ts@.len() as int) =~= ts@);
    let reachable = count_keys(&eb, None);
    let fs = distinct_files(&eb);
    proof {
        lemma_files_of_distinct(eb@);
    }
    let mut details: Vec<ReachableFile> = Vec::new();
    let ghost mut gfs: Seq<u64> = Seq::empty();
    let mut k: usize = 0;
    while k < fs.len()
        invariant
            k <= fs@.len(),
            fs@ == files_of(eb@),
            fs@.no_duplicates(),
            gfs.len() == details@.len(),
            gfs.len() == k,
            gfs.no_duplicates(),
            gfs.to_set() == fs@.take(k as int).to_set(),
            forall|a: int| 0 <= a < gfs.len() ==> describes_file(#[trigger] details@[a], gfs[a], eb@, *index),
            forall|a: int, b: int|
                0 <= a < b < details@.len() ==> details@[a].reachable_branches
                    >= details@[b].reachable_branches,
        decreases fs@.len() - k,
    {
        let f = fs[k];
        let reach = count_keys(&eb, Some(f));
        let total = count_profiles(index, f);
        let d = ReachableFile {
            file_path: label_of(index, f),
            reachable_branches: reach,
            total_branches_in_file: total,
        };
        assert(describes_file(d, f, eb@, *index));
        let ghost before = details@;
        let ghost gb = gfs;
        let p = insert_by_reach(&mut details, d);
        proof {
            gfs = gb.insert(p as int, f);
            assert(!gb.contains(f)) by {
                if gb.contains(f) {
                    assert(gb.to_set().contains(f));
                    assert(fs@.take(k as int).to_set().contains(f));
                    let j = choose|j: int| 0 <= j < k && fs@.take(k as int)[j] == f;
                    assert(fs@[j] == fs@[k as int]);
                }
            }
            assert forall|a: int, b: int| 0 <= a < b < gfs.len() implies gfs[a] != gfs[b] by {
                let ga = if a < p { gb[a] } else if a == p { f } else { gb[a - 1] };
                let gbb = if b < p { gb[b] } else if b == p { f } else { gb[b - 1] };
                assert(gfs[a] == ga);
                assert(gfs[b] == gbb);
                if a != p && b != p {
                    let a1 = if a < p { a } else { a - 1 };
                    let b1 = if b < p { b } else { b - 1 };
                    assert(a1 < b1);
                }
                if a == p {
                    assert(gb.contains(gbb));
                }
                if b == p {
                    assert(gb.contains(ga));
                }
            }
            assert(gfs.to_set() =~= fs@.take(k + 1).to_set()) by {
                assert(fs@.take(k + 1) =~= fs@.take(k as int).push(f));
                assert forall|x: u64| gfs.contains(x) <==> fs@.take(k + 1).contains(x) by {
                    if gfs.contains(x) {
                        let a = choose|a: int| 0 <= a < gfs.len() && gfs[a] == x;
                        if a < p {
                            assert(gb[a] == x);
                            assert(gb.to_set().contains(x));
                        } else if a > p {
                            assert(gb[a - 1] == x);
                            assert(gb.to_set().contains(x));
                        }
                        if x != f {
                            assert(fs@.take(k as int).to_set().contains(x));
                            let j = choose|j: int| 0 <= j < k && fs@.take(k as int)[j] == x;
                            assert(fs@.take(k + 1)[j] == x);
                        } else {
                            assert(fs@.take(k + 1)[k as int] == x);
                        }
                    }
                    if fs@.take(k + 1).contains(x) {
                        let ghost t1 = fs@.take(k + 1);
                        let j = choose|j: int| 0 <= j < t1.len() && #[trigger] t1[j] == x;
                        if j == k {
                            assert(gfs[p as int] == x);
                        } else {
                            assert(fs@.take(k as int)[j] == x);
                            assert(fs@.take(k as int).to_set().contains(x));
                            assert(gb.to_set().contains(x));
                            let a = choose|a: int| 0 <= a < gb.len() && gb[a] == x;
                            if a < p {
                                assert(gfs[a] == x);
                            } else {
                                assert(gfs[a + 1] == x);
                            }
                        }
                    }
                }
            }
            assert forall|a: int| 0 <= a < gfs.len() implies describes_file(
                #[trigger] details@[a],
                gfs[a],
                eb@,
                *index,
            ) by {
                if a < p {
                    assert(details@[a] == before[a]);
                } else if a > p {
                    assert(details@[a] == before[a - 1]);
                } else {
                    assert(details@[a] == d);
                }
            }
        }
        k = k + 1;
    }
    assert(fs@.take(fs@.len() as int) =~= fs@);
    AttackSurfaceReport {
        entry_pattern: String::from_str(entry_pattern),
        entry_tests,
        reachable_branches: reachable,
        reachable_files: fs.len(),
        total_branches: index.total_branches,
        reachable_file_details: details,
    }
}

} // verus!
