//! Test impact analysis: the tests that reach the branches of changed files,
//! and how well each changed file is tested.
use vstd::prelude::*;
use std::collections::HashMap;
use crate::index::types::{BranchIndex, BranchProfile};
use crate::sorted::{insert_sorted_unique, lemma_sorted_len, string_views, strictly_sorted};
use crate::text::{chars_of, eq_str};

verus! {

broadcast use vstd::std_specs::hash::group_hash_axioms;

/// Risk classification of a changed file.
#[derive(Debug, Clone, Copy, PartialEq, Eq, Structural)]
pub enum ChangeRisk {
    /// The changed file's branches have no covering test.
    UntestedChange,
    /// Covered by a single test.
    LowCoverage,
    /// Covered by several tests.
    WellTested,
}

/// Impact of the change of one file.
#[derive(Debug, Clone)]
pub struct FileImpact {
    pub file: String,
    pub risk: ChangeRisk,
    pub affected_tests: Vec<String>,
    pub branch_count: usize,
}

/// Result of an impact analysis.
#[derive(Debug, Clone)]
pub struct ImpactReport {
    pub file_impacts: Vec<FileImpact>,
    pub affected_tests: Vec<String>,
    pub total_tests: usize,
    pub selected_tests: usize,
    pub untested_files: Vec<String>,
}

// ───────────────────────── model ─────────────────────────

/// The file id of the first profile (in key order) whose file is `path`.
pub open spec fn file_id_of(
    keys: Seq<Seq<char>>,
    profs: Map<Seq<char>, BranchProfile>,
    paths: Map<u64, String>,
    path: Seq<char>,
) -> Option<u64>
    decreases keys.len(),
{
    if keys.len() == 0 {
        None
    } else {
        let id = profs[keys[0]].branch.file_id;
        if paths.contains_key(id) && paths[id]@ == path {
            Some(id)
        } else {
            file_id_of(keys.drop_first(), profs, paths, path)
        }
    }
}

/// Number of profiles (among `keys`) of branches in file `id`.
pub open spec fn branches_in(keys: Seq<Seq<char>>, profs: Map<Seq<char>, BranchProfile>, id: u64) -> nat
    decreases keys.len(),
{
    if keys.len() == 0 {
        0
    } else {
        branches_in(keys.drop_last(), profs, id) + if profs[keys.last()].branch.file_id == id {
            1nat
        } else {
            0nat
        }
    }
}

/// Names of the tests that reach a branch (among `keys`) of file `id`.
pub open spec fn tests_in(keys: Seq<Seq<char>>, profs: Map<Seq<char>, BranchProfile>, id: u64) -> Set<Seq<char>>
    decreases keys.len(),
{
    if keys.len() == 0 {
        Set::empty()
    } else {
        let prev = tests_in(keys.drop_last(), profs, id);
        let p = profs[keys.last()];
        if p.branch.file_id == id {
            prev.union(string_views(p.test_names@).to_set())
        } else {
            prev
        }
    }
}

/// The risk of a change, from the number of tests that reach the file.
pub open spec fn risk_of(n: nat) -> ChangeRisk {
    if n == 0 {
        ChangeRisk::UntestedChange
    } else if n == 1 {
        ChangeRisk::LowCoverage
    } else {
        ChangeRisk::WellTested
    }
}

/// The tests reaching a changed file (none when no profiled file is it).
pub open spec fn impact_tests(index: BranchIndex, path: Seq<char>) -> Set<Seq<char>> {
    match file_id_of(index.profiles.key_order(), index.profiles@, index.file_paths@, path) {
        Some(id) => tests_in(index.profiles.key_order(), index.profiles@, id),
        None => Set::empty(),
    }
}

/// The number of branches of a changed file.
pub open spec fn impact_branches(index: BranchIndex, path: Seq<char>) -> nat {
    match file_id_of(index.profiles.key_order(), index.profiles@, index.file_paths@, path) {
        Some(id) => branches_in(index.profiles.key_order(), index.profiles@, id),
        None => 0,
    }
}

/// `f` is the impact of changing `path`.
pub open spec fn is_file_impact(index: BranchIndex, path: Seq<char>, f: FileImpact) -> bool {
    &&& f.file@ == path
    &&& string_views(f.affected_tests@).no_duplicates()
    &&& string_views(f.affected_tests@).to_set() == impact_tests(index, path)
    &&& f.risk == risk_of(impact_tests(index, path).len())
    &&& f.branch_count == impact_branches(index, path)
}

/// Changed files whose change is untested, in order.
pub open spec fn untested(index: BranchIndex, files: Seq<Seq<char>>) -> Seq<Seq<char>>
    decreases files.len(),
{
    if files.len() == 0 {
        Seq::empty()
    } else {
        let prev = untested(index, files.drop_last());
        if impact_tests(index, files.last()).len() == 0 {
            prev.push(files.last())
        } else {
            prev
        }
    }
}

/// Every test that reaches some changed file.
pub open spec fn all_impacted(index: BranchIndex, files: Seq<Seq<char>>) -> Set<Seq<char>> {
    Set::new(|t: Seq<char>| exists|i: int| 0 <= i < files.len() && #[trigger] impact_tests(index, files[i]).contains(t))
}

/// The names of the tests of the index's traces.
pub open spec fn trace_names(index: BranchIndex) -> Set<Seq<char>> {
    Set::new(|t: Seq<char>| exists|i: int| 0 <= i < index.traces@.len() && #[trigger] index.traces@[i].test_name@ == t)
}

// ───────────────────────── code ─────────────────────────

/// Adds to `acc` (a list without repetition) the strings of `names` it lacks.
fn add_names(acc: &mut Vec<String>, names: &Vec<String>)
    requires
        string_views(old(acc)@).no_duplicates(),
    ensures
        string_views(final(acc)@).no_duplicates(),
        string_views(final(acc)@).to_set() == string_views(old(acc)@).to_set().union(
            string_views(names@).to_set(),
        ),
{
    let ghost nv = string_views(names@);
    let mut i: usize = 0;
    assert(nv.take(0).to_set() =~= Set::<Seq<char>>::empty());
    assert(string_views(acc@).to_set().union(Set::<Seq<char>>::empty()) =~= string_views(acc@).to_set());
    while i < names.len()
        invariant
            i <= names@.len(),
            nv == string_views(names@),
            string_views(acc@).no_duplicates(),
            string_views(acc@).to_set() == string_views(old(acc)@).to_set().union(nv.take(i as int).to_set()),
        decreases names@.len() - i,
    {
        let n = &names[i];
        let nc = chars_of(n.as_str());
        let ghost av = string_views(acc@);
        let mut j: usize = 0;
        let mut found = false;
        while j < acc.len()
            invariant
                j <= acc@.len(),
                av == string_views(acc@),
                nc@ == n@,
                found ==> av.contains(n@),
                !found ==> forall|t: int| 0 <= t < j ==> av[t] != n@,
            decreases acc@.len() - j,
        {
            assert(av[j as int] == acc@[j as int]@);
            if eq_str(&nc, acc[j].as_str()) {
                found = true;
            }
            j = j + 1;
        }
        assert(nv.take(i + 1) =~= nv.take(i as int).push(n@));
        proof {
            nv.take(i as int).lemma_push_to_set_commute(n@);
        }
        if !found {
            acc.push(String::from_str(n.as_str()));
            assert(string_views(acc@) =~= av.push(n@));
            proof {
                av.lemma_push_to_set_commute(n@);
            }
            assert(string_views(acc@).no_duplicates()) by {
                assert forall|a: int, b: int|
                    0 <= a < string_views(acc@).len() && 0 <= b < string_views(acc@).len() && a != b implies string_views(acc@)[a]
                    != string_views(acc@)[b] by {
                    if a < av.len() && b < av.len() {
                        assert(string_views(acc@)[a] == av[a]);
                        assert(string_views(acc@)[b] == av[b]);
                    } else if a < av.len() {
                        assert(string_views(acc@)[a] == av[a]);
                    } else if b < av.len() {
                        assert(string_views(acc@)[b] == av[b]);
                    }
                }
            }
            assert(string_views(acc@).to_set() =~= string_views(old(acc)@).to_set().union(
                nv.take(i + 1).to_set(),
            ));
        } else {
            assert(string_views(acc@).to_set() =~= string_views(old(acc)@).to_set().union(
                nv.take(i + 1).to_set(),
            ));
        }
        i = i + 1;
    }
    assert(nv.take(names@.len() as int) =~= nv);
}

/// The file id of the first profile whose file is `path` (see [`file_id_of`]).
fn find_file_id(index: &BranchIndex, path: &str) -> (r: Option<u64>)
    ensures
        r == file_id_of(index.profiles.key_order(), index.profiles@, index.file_paths@, path@),
{
    let ghost keys = index.profiles.key_order();
    let n = index.profiles.len();
    let pc = chars_of(path);
    let mut k: usize = 0;
    assert(keys.subrange(0, n as int) =~= keys);
    while k < n
        invariant
            k <= n,
            n == keys.len(),
            keys == index.profiles.key_order(),
            pc@ == path@,
            file_id_of(keys, index.profiles@, index.file_paths@, path@) == file_id_of(
                keys.subrange(k as int, n as int),
                index.profiles@,
                index.file_paths@,
                path@,
            ),
        decreases n - k,
    {
        let (_, p) = index.profiles.entry_at(k);
        let id = p.branch.file_id;
        let ghost sub = keys.subrange(k as int, n as int);
        assert(sub[0] == keys[k as int]);
        assert(sub.drop_first() =~= keys.subrange(k + 1, n as int));
        match index.file_paths.get(&id) {
            Some(fp) => {
                if eq_str(&pc, fp.as_str()) {
                    return Some(id);
                }
            },
            None => {},
        }
        k = k + 1;
    }
    assert(keys.subrange(n as int, n as int) =~= Seq::<Seq<char>>::empty());
    None
}

/// The tests reaching, and the number of branches of, file `id`.
fn tests_of_file(index: &BranchIndex, id: u64) -> (r: (Vec<String>, usize))
    ensures
        string_views(r.0@).no_duplicates(),
        string_views(r.0@).to_set() == tests_in(index.profiles.key_order(), index.profiles@, id),
        r.1 == branches_in(index.profiles.key_order(), index.profiles@, id),
{
    let ghost keys = index.profiles.key_order();
    let n = index.profiles.len();
    let mut names: Vec<String> = Vec::new();
    let mut count: usize = 0;
    let mut k: usize = 0;
    assert(keys.take(0) =~= Seq::<Seq<char>>::empty());
    assert(string_views(names@) =~= Seq::<Seq<char>>::empty());
    assert(string_views(names@).to_set() =~= Set::<Seq<char>>::empty());
    while k < n
        invariant
            k <= n,
            n == keys.len(),
            keys == index.profiles.key_order(),
            string_views(names@).no_duplicates(),
            string_views(names@).to_set() == tests_in(keys.take(k as int), index.profiles@, id),
            count == branches_in(keys.take(k as int), index.profiles@, id),
            count <= k,
        decreases n - k,
    {
        let (_, p) = index.profiles.entry_at(k);
        assert(keys.take(k + 1).drop_last() =~= keys.take(k as int));
        assert(keys.take(k + 1).last() == keys[k as int]);
        if p.branch.file_id == id {
            count = count + 1;
            add_names(&mut names, &p.test_names);
        }
        k = k + 1;
    }
    assert(keys.take(n as int) =~= keys);
    (names, count)
}

/// Selects the tests a change affects: for each changed file, the profiled
/// branches of its file (the file of the first profile, in key order, that
/// the index's file table maps to it) and the tests that reach them. A file
/// with no such test is an untested change; one test means low coverage,
/// more a well-tested file. The report lists the impacts in the order of
/// `changed_files`, the affected tests of all files sorted and without
/// repetition, and the number of distinct tests of the index.
pub fn analyze(index: &BranchIndex, changed_files: &[String]) -> (r: ImpactReport)
    ensures
        r.file_impacts@.len() == changed_files@.len(),
        forall|k: int|
            0 <= k < changed_files@.len() ==> is_file_impact(
                *index,
                changed_files@[k]@,
                #[trigger] r.file_impacts@[k],
            ),
        string_views(r.untested_files@) == untested(*index, string_views(changed_files@)),
        strictly_sorted(string_views(r.affected_tests@)),
        string_views(r.affected_tests@).to_set() == all_impacted(*index, string_views(changed_files@)),
        r.selected_tests == r.affected_tests@.len(),
        r.total_tests == trace_names(*index).len(),
{
    let ghost files = string_views(changed_files@);
    // Distinct test names of the index.
    let mut all_names: Vec<String> = Vec::new();
    let mut t: usize = 0;
    assert(string_views(all_names@) =~= Seq::<Seq<char>>::empty());
    while t < index.traces.len()
        invariant
            t <= index.traces@.len(),
            strictly_sorted(string_views(all_names@)),
            string_views(all_names@).to_set() == Set::new(
                |x: Seq<char>| exists|i: int| 0 <= i < t && #[trigger] index.traces@[i].test_name@ == x,
            ),
        decreases index.traces@.len() - t,
    {
        let ghost before = string_views(all_names@).to_set();
        insert_sorted_unique(&mut all_names, String::from_str(index.traces[t].test_name.as_str()));
        assert(string_views(all_names@).to_set() =~= Set::new(
            |x: Seq<char>| exists|i: int| 0 <= i < t + 1 && #[trigger] index.traces@[i].test_name@ == x,
        )) by {
            assert forall|x: Seq<char>| string_views(all_names@).to_set().contains(x) <==> (exists|i: int|
                0 <= i < t + 1 && #[trigger] index.traces@[i].test_name@ == x) by {
                if before.contains(x) {
                    let i = choose|i: int| 0 <= i < t && #[trigger] index.traces@[i].test_name@ == x;
                    assert(0 <= i < t + 1 && index.traces@[i].test_name@ == x);
                }
                if exists|i: int| 0 <= i < t + 1 && #[trigger] index.traces@[i].test_name@ == x {
                    let i = choose|i: int| 0 <= i < t + 1 && #[trigger] index.traces@[i].test_name@ == x;
                    if i < t {
                        assert(before.contains(x));
                    }
                }
            }
        }
        t = t + 1;
    }
    proof {
        lemma_sorted_len(string_views(all_names@));
        assert(string_views(all_names@).to_set() =~= trace_names(*index));
    }
    let total_tests = all_names.len();

    let mut file_impacts: Vec<FileImpact> = Vec::new();
    let mut untested_files: Vec<String> = Vec::new();
    let mut affected: Vec<String> = Vec::new();
    let mut i: usize = 0;
    assert(files.take(0) =~= Seq::<Seq<char>>::empty());
    assert(string_views(untested_files@) =~= Seq::<Seq<char>>::empty());
    assert(string_views(affected@) =~= Seq::<Seq<char>>::empty());
    assert(string_views(affected@).to_set() =~= all_impacted(*index, files.take(0)));
    while i < changed_files.len()
        invariant
            i <= changed_files@.len(),
            files == string_views(changed_files@),
            file_impacts@.len() == i,
            forall|k: int|
                0 <= k < i ==> is_file_impact(*index, changed_files@[k]@, #[trigger] file_impacts@[k]),
            string_views(untested_files@) == untested(*index, files.take(i as int)),
            strictly_sorted(string_views(affected@)),
            string_views(affected@).to_set() == all_impacted(*index, files.take(i as int)),
        decreases changed_files@.len() - i,
    {
        let path = &changed_files[i];
        assert(files[i as int] == path@);
        assert(files.take(i + 1).drop_last() =~= files.take(i as int));
        assert(files.take(i + 1).last() == path@);
        let (tests, branch_count) = match find_file_id(index, path.as_str()) {
            Some(id) => tests_of_file(index, id),
            None => {
                let v: Vec<String> = Vec::new();
                assert(string_views(v@) =~= Seq::<Seq<char>>::empty());
                assert(string_views(v@).to_set() =~= Set::<Seq<char>>::empty());
                (v, 0)
            },
        };
        proof {
            string_views(tests@).unique_seq_to_set();
        }
        let risk = if tests.len() == 0 {
            ChangeRisk::UntestedChange
        } else if tests.len() == 1 {
            ChangeRisk::LowCoverage
        } else {
            ChangeRisk::WellTested
        };
        if tests.len() == 0 {
            let ghost before = untested_files@;
            untested_files.push(String::from_str(path.as_str()));
            assert(string_views(untested_files@) =~= string_views(before).push(path@));
        }
        // Add this file's tests to the sorted list of all affected tests.
        let ghost before_aff = string_views(affected@).to_set();
        let mut q: usize = 0;
        let ghost tv = string_views(tests@);
        assert(tv.take(0).to_set() =~= Set::<Seq<char>>::empty());
        assert(before_aff.union(Set::<Seq<char>>::empty()) =~= before_aff);
        while q < tests.len()
            invariant
                q <= tests@.len(),
                tv == string_views(tests@),
                strictly_sorted(string_views(affected@)),
                string_views(affected@).to_set() == before_aff.union(tv.take(q as int).to_set()),
            decreases tests@.len() - q,
        {
            assert(tv.take(q + 1) =~= tv.take(q as int).push(tv[q as int]));
            proof {
                tv.take(q as int).lemma_push_to_set_commute(tv[q as int]);
            }
            insert_sorted_unique(&mut affected, String::from_str(tests[q].as_str()));
            assert(string_views(affected@).to_set() =~= before_aff.union(tv.take(q + 1).to_set()));
            q = q + 1;
        }
        assert(tv.take(tests@.len() as int) =~= tv);
        proof {
            let ti = impact_tests(*index, path@);
            assert(tv.to_set() == ti);
            assert(all_impacted(*index, files.take(i + 1)) =~= all_impacted(*index, files.take(i as int)).union(ti)) by {
                let a0 = files.take(i as int);
                let a1 = files.take(i + 1);
                assert forall|x: Seq<char>| all_impacted(*index, a1).contains(x) <==> all_impacted(*index, a0).union(ti).contains(x) by {
                    if all_impacted(*index, a1).contains(x) {
                        let j = choose|j: int| 0 <= j < a1.len() && #[trigger] impact_tests(*index, a1[j]).contains(x);
                        if j < i {
                            assert(a0[j] == a1[j]);
                        } else {
                            assert(a1[j] == path@);
                        }
                    }
                    if all_impacted(*index, a0).contains(x) {
                        let j = choose|j: int| 0 <= j < a0.len() && #[trigger] impact_tests(*index, a0[j]).contains(x);
                        assert(a1[j] == a0[j]);
                    }
                    if ti.contains(x) {
                        assert(a1[i as int] == path@);
                        assert(impact_tests(*index, a1[i as int]).contains(x));
                    }
                }
            }
        }
        let impact = FileImpact {
            file: String::from_str(path.as_str()),
            risk,
            affected_tests: tests,
            branch_count,
        };
        let ghost old_impacts = file_impacts@;
        file_impacts.push(impact);
        assert forall|k: int| 0 <= k < i + 1 implies is_file_impact(*index, changed_files@[k]@, #[trigger] file_impacts@[k]) by {
            if k < i {
                assert(file_impacts@[k] == old_impacts[k]);
            }
        }
        i = i + 1;
    }
    assert(files.take(changed_files@.len() as int) =~= files);
    let selected_tests = affected.len();
    ImpactReport { file_impacts, affected_tests: affected, total_tests, selected_tests, untested_files }
}

} // verus!
