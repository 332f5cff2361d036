//! Branch coverage read from a JaCoCo report.
use vstd::prelude::*;
use std::collections::HashMap;
use crate::hash::{fnv1a_hash, spec_fnv1a};
use crate::text::{chars_of, eq_str, push_str, string_of};
use crate::types::BranchId;

verus! {

broadcast use vstd::std_specs::hash::group_hash_axioms;

/// Top-level JaCoCo report.
#[derive(Debug)]
pub struct JacocoReport {
    pub packages: Vec<JacocoPackage>,
}

/// A package of a JaCoCo report (`name` uses `/` or `.` separators).
#[derive(Debug)]
pub struct JacocoPackage {
    pub name: String,
    pub classes: Vec<JacocoClass>,
}

/// A class of a JaCoCo report; `source_file` is empty where the report names none.
#[derive(Debug)]
pub struct JacocoClass {
    pub name: String,
    pub source_file: String,
    pub methods: Vec<JacocoMethod>,
}

/// A method of a JaCoCo report, at its first line.
#[derive(Debug)]
pub struct JacocoMethod {
    pub name: String,
    pub line: u32,
    pub counters: Vec<JacocoCounter>,
}

/// A coverage counter (`INSTRUCTION`, `BRANCH`, `LINE`, ...).
#[derive(Debug)]
pub struct JacocoCounter {
    pub counter_type: String,
    pub missed: u32,
    pub covered: u32,
}

/// Result from reading JaCoCo coverage.
#[derive(Debug)]
pub struct JavaCoverageResult {
    /// All branch IDs discovered (both covered and uncovered).
    pub branches: Vec<BranchId>,
    /// Mapping from file id to relative file path.
    pub file_paths: HashMap<u64, String>,
    /// Total branch count (covered + missed).
    pub total_branches: usize,
    /// Covered branch count.
    pub covered_branches: usize,
}

// ───────────────────────── model ─────────────────────────

/// `s` with every `.` turned into `/`.
pub open spec fn slashes(s: Seq<char>) -> Seq<char> {
    s.map_values(|c: char| if c == '.' { '/' } else { c })
}

/// The source path of a class: `<package>/<source file>`, or
/// `<class name>.java` where the report names no source file.
pub open spec fn class_file_path(package: Seq<char>, c: JacocoClass) -> Seq<char> {
    if c.source_file@.len() == 0 {
        slashes(c.name@) + ".java"@
    } else {
        slashes(package) + "/"@ + c.source_file@
    }
}

/// The file id of a path: FNV-1a over its UTF-8 bytes.
pub open spec fn file_id_of(path: Seq<char>) -> u64 {
    spec_fnv1a(vstd::utf8::encode_utf8(path))
}

/// A `BRANCH` counter: file id, method line, covered count, missed count.
pub type BranchRecord = (u64, u32, u32, u32);

/// The branch counters among `ks`, in order.
pub open spec fn counter_records(fid: u64, line: u32, ks: Seq<JacocoCounter>) -> Seq<BranchRecord>
    decreases ks.len(),
{
    if ks.len() == 0 {
        Seq::empty()
    } else {
        counter_records(fid, line, ks.drop_last()) + if ks.last().counter_type@ == "BRANCH"@ {
            seq![(fid, line, ks.last().covered, ks.last().missed)]
        } else {
            Seq::empty()
        }
    }
}

/// The branch counters of the methods `ms` of one file, in order.
pub open spec fn method_records(fid: u64, ms: Seq<JacocoMethod>) -> Seq<BranchRecord>
    decreases ms.len(),
{
    if ms.len() == 0 {
        Seq::empty()
    } else {
        method_records(fid, ms.drop_last()) + counter_records(
            fid,
            ms.last().line,
            ms.last().counters@,
        )
    }
}

/// The branch counters of the classes `cs` of a package, in order.
pub open spec fn class_records(package: Seq<char>, cs: Seq<JacocoClass>) -> Seq<BranchRecord>
    decreases cs.len(),
{
    if cs.len() == 0 {
        Seq::empty()
    } else {
        class_records(package, cs.drop_last()) + method_records(
            file_id_of(class_file_path(package, cs.last())),
            cs.last().methods@,
        )
    }
}

/// The branch counters of a report, in document order.
pub open spec fn report_records(ps: Seq<JacocoPackage>) -> Seq<BranchRecord>
    decreases ps.len(),
{
    if ps.len() == 0 {
        Seq::empty()
    } else {
        report_records(ps.drop_last()) + class_records(ps.last().name@, ps.last().classes@)
    }
}

/// The source paths of the classes `cs` of a package, in order.
pub open spec fn class_paths(package: Seq<char>, cs: Seq<JacocoClass>) -> Seq<Seq<char>> {
    cs.map_values(|c: JacocoClass| class_file_path(package, c))
}

/// The source paths of all classes of a report, in document order.
pub open spec fn report_paths(ps: Seq<JacocoPackage>) -> Seq<Seq<char>>
    decreases ps.len(),
{
    if ps.len() == 0 {
        Seq::empty()
    } else {
        report_paths(ps.drop_last()) + class_paths(ps.last().name@, ps.last().classes@)
    }
}

/// File id to path, each path entered in order (a later path replaces an
/// earlier one with the same id).
pub open spec fn path_map(paths: Seq<Seq<char>>) -> Map<u64, Seq<char>>
    decreases paths.len(),
{
    if paths.len() == 0 {
        Map::empty()
    } else {
        path_map(paths.drop_last()).insert(file_id_of(paths.last()), paths.last())
    }
}

/// `n` covered branches at `line` of file `fid`: directions `0..n` (wrapping
/// at 256), discriminator 0.
pub open spec fn covered_run(fid: u64, line: u32, n: u32) -> Seq<BranchId> {
    Seq::new(
        n as nat,
        |i: int|
            BranchId {
                file_id: fid,
                line,
                col: 0,
                direction: i as u8,
                discriminator: 0,
                condition_index: None,
            },
    )
}

/// `n` uncovered branches at `line` of file `fid`: directions continuing
/// from `start` (wrapping at 256), discriminator 1.
pub open spec fn missed_run(fid: u64, line: u32, start: u32, n: u32) -> Seq<BranchId> {
    Seq::new(
        n as nat,
        |i: int|
            BranchId {
                file_id: fid,
                line,
                col: 0,
                direction: (start + i) as u8,
                discriminator: 1,
                condition_index: None,
            },
    )
}

/// The branches of one counter: its covered ones, then its uncovered ones.
pub open spec fn record_branches(r: BranchRecord) -> Seq<BranchId> {
    covered_run(r.0, r.1, r.2) + missed_run(r.0, r.1, r.2, r.3)
}

/// The branches of all counters, in order.
pub open spec fn records_branches(rs: Seq<BranchRecord>) -> Seq<BranchId>
    decreases rs.len(),
{
    if rs.len() == 0 {
        Seq::empty()
    } else {
        records_branches(rs.drop_last()) + record_branches(rs.last())
    }
}

/// Sum of covered plus missed over the counters.
pub open spec fn records_total(rs: Seq<BranchRecord>) -> nat
    decreases rs.len(),
{
    if rs.len() == 0 {
        0
    } else {
        records_total(rs.drop_last()) + rs.last().2 as nat + rs.last().3 as nat
    }
}

/// Sum of covered over the counters.
pub open spec fn records_covered(rs: Seq<BranchRecord>) -> nat
    decreases rs.len(),
{
    if rs.len() == 0 {
        0
    } else {
        records_covered(rs.drop_last()) + rs.last().2 as nat
    }
}

/// The counts of a report fit: each counter's covered plus missed fits in a
/// `u32`, and the total in a `usize`.
pub open spec fn jacoco_fits(r: JacocoReport) -> bool {
    let rs = report_records(r.packages@);
    &&& forall|i: int| 0 <= i < rs.len() ==> (#[trigger] rs[i]).2 + rs[i].3 <= u32::MAX
    &&& records_total(rs) <= usize::MAX
}

/// Covered never exceeds the total, and totals only grow along a prefix.
proof fn lemma_records_sums(rs: Seq<BranchRecord>, n: int)
    requires
        0 <= n <= rs.len(),
    ensures
        records_covered(rs) <= records_total(rs),
        records_total(rs.take(n)) <= records_total(rs),
    decreases rs.len(),
{
    if rs.len() > 0 {
        if n == rs.len() {
            assert(rs.take(n) =~= rs);
            lemma_records_sums(rs.drop_last(), n - 1);
        } else {
            assert(rs.drop_last().take(n) =~= rs.take(n));
            lemma_records_sums(rs.drop_last(), n);
        }
    }
}

// ───────────────────────── code ─────────────────────────

/// `s` with every `.` turned into `/`, appended to `out`.
fn push_slashed(out: &mut Vec<char>, s: &str)
    ensures
        final(out)@ == old(out)@ + slashes(s@),
{
    let cs = chars_of(s);
    let mut i: usize = 0;
    while i < cs.len()
        invariant
            i <= cs@.len(),
            cs@ == s@,
            out@ == old(out)@ + slashes(cs@.take(i as int)),
        decreases cs@.len() - i,
    {
        assert(slashes(cs@.take(i + 1)) =~= slashes(cs@.take(i as int)).push(
            if cs@[i as int] == '.' {
                '/'
            } else {
                cs@[i as int]
            },
        ));
        if cs[i] == '.' {
            out.push('/');
        } else {
            out.push(cs[i]);
        }
        i = i + 1;
    }
    assert(cs@.take(cs@.len() as int) =~= cs@);
}

/// The source path of class `c` of package `package` (see [`class_file_path`]).
fn class_file(package: &String, c: &JacocoClass) -> (p: String)
    ensures
        p@ == class_file_path(package@, *c),
{
    let mut out: Vec<char> = Vec::new();
    if chars_of(c.source_file.as_str()).len() == 0 {
        push_slashed(&mut out, c.name.as_str());
        push_str(&mut out, ".java");
    } else {
        push_slashed(&mut out, package.as_str());
        push_str(&mut out, "/");
        push_str(&mut out, c.source_file.as_str());
    }
    string_of(&out)
}

/// Appends the branch counters among `ks`.
fn push_counter_records(fid: u64, line: u32, ks: &Vec<JacocoCounter>, recs: &mut Vec<BranchRecord>)
    ensures
        final(recs)@ == old(recs)@ + counter_records(fid, line, ks@),
{
    let mut i: usize = 0;
    assert(old(recs)@ + counter_records(fid, line, ks@.take(0)) =~= old(recs)@);
    while i < ks.len()
        invariant
            i <= ks@.len(),
            recs@ == old(recs)@ + counter_records(fid, line, ks@.take(i as int)),
        decreases ks@.len() - i,
    {
        assert(ks@.take(i + 1).drop_last() =~= ks@.take(i as int));
        assert(ks@.take(i + 1).last() == ks@[i as int]);
        proof {
            reveal_strlit("BRANCH");
        }
        if eq_str(&chars_of(ks[i].counter_type.as_str()), "BRANCH") {
            recs.push((fid, line, ks[i].covered, ks[i].missed));
            assert(recs@ =~= old(recs)@ + counter_records(fid, line, ks@.take(i + 1)));
        } else {
            assert(recs@ =~= old(recs)@ + counter_records(fid, line, ks@.take(i + 1)));
        }
        i = i + 1;
    }
    assert(ks@.take(ks@.len() as int) =~= ks@);
}

/// Appends the branch counters of the methods `ms`.
fn push_method_records(fid: u64, ms: &Vec<JacocoMethod>, recs: &mut Vec<BranchRecord>)
    ensures
        final(recs)@ == old(recs)@ + method_records(fid, ms@),
{
    let mut i: usize = 0;
    assert(old(recs)@ + method_records(fid, ms@.take(0)) =~= old(recs)@);
    while i < ms.len()
        invariant
            i <= ms@.len(),
            recs@ == old(recs)@ + method_records(fid, ms@.take(i as int)),
        decreases ms@.len() - i,
    {
        assert(ms@.take(i + 1).drop_last() =~= ms@.take(i as int));
        assert(ms@.take(i + 1).last() == ms@[i as int]);
        push_counter_records(fid, ms[i].line, &ms[i].counters, recs);
        assert(recs@ =~= old(recs)@ + method_records(fid, ms@.take(i + 1)));
        i = i + 1;
    }
    assert(ms@.take(ms@.len() as int) =~= ms@);
}

/// Appends the branch counters and the source paths of the classes of one package.
fn push_package(p: &JacocoPackage, recs: &mut Vec<BranchRecord>, paths: &mut Vec<String>)
    ensures
        final(recs)@ == old(recs)@ + class_records(p.name@, p.classes@),
        final(paths)@.map_values(|s: String| s@) == old(paths)@.map_values(|s: String| s@)
            + class_paths(p.name@, p.classes@),
{
    let cs = &p.classes;
    let mut i: usize = 0;
    assert(old(recs)@ + class_records(p.name@, cs@.take(0)) =~= old(recs)@);
    assert(old(paths)@.map_values(|s: String| s@) + class_paths(p.name@, cs@.take(0))
        =~= old(paths)@.map_values(|s: String| s@));
    while i < cs.len()
        invariant
            i <= cs@.len(),
            cs@ == p.classes@,
            recs@ == old(recs)@ + class_records(p.name@, cs@.take(i as int)),
            paths@.map_values(|s: String| s@) == old(paths)@.map_values(|s: String| s@)
                + class_paths(p.name@, cs@.take(i as int)),
        decreases cs@.len() - i,
    {
        assert(cs@.take(i + 1).drop_last() =~= cs@.take(i as int));
        assert(cs@.take(i + 1).last() == cs@[i as int]);
        let path = class_file(&p.name, &cs[i]);
        let fid = fnv1a_hash(path.as_str());
        push_method_records(fid, &cs[i].methods, recs);
        assert(recs@ =~= old(recs)@ + class_records(p.name@, cs@.take(i + 1)));
        let ghost before = paths@.map_values(|s: String| s@);
        let ghost pv = path@;
        paths.push(path);
        assert(paths@.map_values(|s: String| s@) =~= before.push(pv));
        assert(class_paths(p.name@, cs@.take(i + 1)) =~= class_paths(p.name@, cs@.take(i as int)).push(pv));
        assert(paths@.map_values(|s: String| s@) =~= old(paths)@.map_values(|s: String| s@)
            + class_paths(p.name@, cs@.take(i + 1)));
        i = i + 1;
    }
    assert(cs@.take(cs@.len() as int) =~= cs@);
}

/// Appends the branches of one counter (see [`record_branches`]).
fn push_record_branches(r: BranchRecord, out: &mut Vec<BranchId>)
    requires
        r.2 + r.3 <= u32::MAX,
    ensures
        final(out)@ == old(out)@ + record_branches(r),
{
    let (fid, line, covered, missed) = r;
    let ghost first = covered_run(fid, line, covered);
    let ghost second = missed_run(fid, line, covered, missed);
    let mut i: u32 = 0;
    while i < covered
        invariant
            i <= covered,
            first == covered_run(fid, line, covered),
            out@ == old(out)@ + first.take(i as int),
        decreases covered - i,
    {
        let b = BranchId::new(fid, line, 0, i as u8);
        assert(b == first[i as int]);
        out.push(b);
        assert(first.take(i + 1) =~= first.take(i as int).push(b));
        assert(out@ =~= old(out)@ + first.take(i + 1));
        i = i + 1;
    }
    assert(first.take(covered as int) =~= first);
    let mut j: u32 = 0;
    while j < missed
        invariant
            j <= missed,
            covered + missed <= u32::MAX,
            second == missed_run(fid, line, covered, missed),
            out@ == old(out)@ + first + second.take(j as int),
        decreases missed - j,
    {
        let d = covered + j;
        let b = BranchId {
            file_id: fid,
            line,
            col: 0,
            direction: d as u8,
            discriminator: 1,
            condition_index: None,
        };
        assert(b == second[j as int]);
        out.push(b);
        assert(second.take(j + 1) =~= second.take(j as int).push(b));
        assert(out@ =~= old(out)@ + first + second.take(j + 1));
        j = j + 1;
    }
    assert(second.take(missed as int) =~= second);
    assert(first + second =~= record_branches(r));
}

/// The coverage a JaCoCo report gives: for each `BRANCH` counter (in
/// document order) its covered then its uncovered branches, at the method's
/// line in the class's source file; the totals of covered plus missed and of
/// covered; and each class's file id with its source path.
pub fn jacoco_coverage(report: &JacocoReport) -> (r: JavaCoverageResult)
    requires
        jacoco_fits(*report),
    ensures
        r.branches@ == records_branches(report_records(report.packages@)),
        r.total_branches == records_total(report_records(report.packages@)),
        r.covered_branches == records_covered(report_records(report.packages@)),
        r.file_paths@.dom() == path_map(report_paths(report.packages@)).dom(),
        forall|k: u64|
            #![trigger r.file_paths@[k]]
            r.file_paths@.contains_key(k) ==> r.file_paths@[k]@ == path_map(
                report_paths(report.packages@),
            )[k],
{
    let ps = &report.packages;
    let mut recs: Vec<BranchRecord> = Vec::new();
    let mut paths: Vec<String> = Vec::new();
    let mut i: usize = 0;
    assert(report_records(ps@.take(0)) =~= Seq::<BranchRecord>::empty());
    assert(paths@.map_values(|s: String| s@) =~= report_paths(ps@.take(0)));
    while i < ps.len()
        invariant
            i <= ps@.len(),
            ps@ == report.packages@,
            recs@ == report_records(ps@.take(i as int)),
            paths@.map_values(|s: String| s@) == report_paths(ps@.take(i as int)),
        decreases ps@.len() - i,
    {
        assert(ps@.take(i + 1).drop_last() =~= ps@.take(i as int));
        assert(ps@.take(i + 1).last() == ps@[i as int]);
        push_package(&ps[i], &mut recs, &mut paths);
        i = i + 1;
    }
    assert(ps@.take(ps@.len() as int) =~= ps@);
    let ghost rs = recs@;
    let mut branches: Vec<BranchId> = Vec::new();
    let mut total: usize = 0;
    let mut covered: usize = 0;
    let mut k: usize = 0;
    proof {
        lemma_records_sums(rs, 0);
    }
    assert(rs.take(0) =~= Seq::<BranchRecord>::empty());
    while k < recs.len()
        invariant
            k <= rs.len(),
            rs == recs@,
            rs == report_records(report.packages@),
            jacoco_fits(*report),
            branches@ == records_branches(rs.take(k as int)),
            total == records_total(rs.take(k as int)),
            covered == records_covered(rs.take(k as int)),
        decreases rs.len() - k,
    {
        assert(rs.take(k + 1).drop_last() =~= rs.take(k as int));
        assert(rs.take(k + 1).last() == rs[k as int]);
        proof {
            lemma_records_sums(rs, k + 1);
            lemma_records_sums(rs.take(k + 1), k + 1);
        }
        let rec = recs[k];
        assert(rec.2 + rec.3 <= u32::MAX);
        push_record_branches(rec, &mut branches);
        total = total + rec.2 as usize + rec.3 as usize;
        covered = covered + rec.2 as usize;
        k = k + 1;
    }
    assert(rs.take(rs.len() as int) =~= rs);
    let mut file_paths: HashMap<u64, String> = HashMap::new();
    let ghost pv = paths@.map_values(|s: String| s@);
    let mut j: usize = 0;
    assert(pv.take(0) =~= Seq::<Seq<char>>::empty());
    while j < paths.len()
        invariant
            j <= paths@.len(),
            pv == paths@.map_values(|s: String| s@),
            file_paths@.dom() == path_map(pv.take(j as int)).dom(),
            forall|key: u64|
                #![trigger file_paths@[key]]
                file_paths@.contains_key(key) ==> file_paths@[key]@ == path_map(
                    pv.take(j as int),
                )[key],
        decreases paths@.len() - j,
    {
        assert(pv.take(j + 1).drop_last() =~= pv.take(j as int));
        assert(pv.take(j + 1).last() == paths@[j as int]@);
        let fid = fnv1a_hash(paths[j].as_str());
        file_paths.insert(fid, paths[j].clone());
        assert(file_paths@.dom() =~= path_map(pv.take(j + 1)).dom());
        j = j + 1;
    }
    assert(pv.take(pv.len() as int) =~= pv);
    JavaCoverageResult { branches, file_paths, total_branches: total, covered_branches: covered }
}

} // verus!
