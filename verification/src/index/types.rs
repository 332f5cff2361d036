//! The branch index: which tests reach which branches, aggregated per branch.
use vstd::prelude::*;
use std::collections::HashMap;
use crate::strmap::StrMap;
use crate::text::{decimal, eq_str, push_decimal, push_str, string_of};
use crate::types::{BranchId, ExecutionStatus, Language};

verus! {

/// Branch footprint of a single test.
#[derive(Debug, Clone)]
pub struct TestTrace {
    pub test_name: String,
    pub branches: Vec<BranchId>,
    pub duration_ms: u64,
    pub status: ExecutionStatus,
}

/// Aggregate statistics for a single branch across all tests.
#[derive(Debug, Clone)]
pub struct BranchProfile {
    pub branch: BranchId,
    /// Total hit count across all tests.
    pub hit_count: u64,
    /// Number of tests that reach this branch (a test counted once per hit).
    pub test_count: usize,
    /// Names of the tests that reach this branch, one per hit.
    pub test_names: Vec<String>,
}

/// Persistent per-test branch mapping for a project.
pub struct BranchIndex {
    pub traces: Vec<TestTrace>,
    /// Profiles keyed by [`branch_key`].
    pub profiles: StrMap<BranchProfile>,
    pub file_paths: HashMap<u64, String>,
    pub total_branches: usize,
    pub covered_branches: usize,
    pub created_at: String,
    pub language: Language,
    pub target_root: String,
    /// Hash of the source files, for staleness detection.
    pub source_hash: String,
}

// ───────────────────────── model ─────────────────────────

/// The key text of a branch: `file_id:line:col:direction:condition`, with
/// 255 standing for a missing condition index.
pub open spec fn spec_branch_key(b: BranchId) -> Seq<char> {
    decimal(b.file_id as nat) + seq![':'] + decimal(b.line as nat) + seq![':'] + decimal(b.col as nat)
        + seq![':'] + decimal(b.direction as nat) + seq![':'] + decimal(
        match b.condition_index {
            Some(c) => c as nat,
            None => 255nat,
        },
    )
}

/// A profile as a value: branch, hits, tests, test names.
pub struct ProfileView {
    pub branch: BranchId,
    pub hits: nat,
    pub tests: nat,
    pub names: Seq<Seq<char>>,
}

/// The value of a profile.
pub open spec fn profile_view(p: BranchProfile) -> ProfileView {
    ProfileView {
        branch: p.branch,
        hits: p.hit_count as nat,
        tests: p.test_count as nat,
        names: p.test_names@.map_values(|s: String| s@),
    }
}

/// The values of a map of profiles.
pub open spec fn profiles_view(m: Map<Seq<char>, BranchProfile>) -> Map<Seq<char>, ProfileView> {
    m.map_values(|p: BranchProfile| profile_view(p))
}

/// Every branch hit of a list of traces, with the test that hit it, in order.
pub open spec fn hits(traces: Seq<TestTrace>) -> Seq<(Seq<char>, BranchId)>
    decreases traces.len(),
{
    if traces.len() == 0 {
        Seq::empty()
    } else {
        hits(traces.drop_last()) + traces.last().branches@.map_values(
            |b: BranchId| (traces.last().test_name@, b),
        )
    }
}

/// The profiles that a list of hits builds: each hit adds one to the hit
/// count of its branch's key; a test reaching the key for the first time adds
/// one to its test count and appends its name, so that the tests are counted
/// and named once each, in the order they first reach it; the first hit of a
/// key records its branch.
pub open spec fn profiles_of(hs: Seq<(Seq<char>, BranchId)>) -> Map<Seq<char>, ProfileView>
    decreases hs.len(),
{
    if hs.len() == 0 {
        Map::empty()
    } else {
        let m = profiles_of(hs.drop_last());
        let (name, b) = hs.last();
        let k = spec_branch_key(b);
        if m.contains_key(k) {
            let p = m[k];
            if p.names.contains(name) {
                m.insert(k, ProfileView { branch: p.branch, hits: p.hits + 1, tests: p.tests, names: p.names })
            } else {
                m.insert(k, ProfileView { branch: p.branch, hits: p.hits + 1, tests: p.tests + 1, names: p.names.push(name) })
            }
        } else {
            m.insert(k, ProfileView { branch: b, hits: 1, tests: 1, names: seq![name] })
        }
    }
}

/// The branches of `all` whose key is not in `keys`, in order.
pub open spec fn uncovered(all: Seq<BranchId>, keys: Set<Seq<char>>) -> Seq<BranchId>
    decreases all.len(),
{
    if all.len() == 0 {
        Seq::empty()
    } else {
        let prev = uncovered(all.drop_last(), keys);
        if keys.contains(spec_branch_key(all.last())) {
            prev
        } else {
            prev.push(all.last())
        }
    }
}

/// The profiles of the keys `keys` (in that order) whose hit count is zero.
pub open spec fn dead_profiles(keys: Seq<Seq<char>>, m: Map<Seq<char>, BranchProfile>) -> Seq<ProfileView>
    decreases keys.len(),
{
    if keys.len() == 0 {
        Seq::empty()
    } else {
        let prev = dead_profiles(keys.drop_last(), m);
        if m[keys.last()].hit_count == 0 {
            prev.push(profile_view(m[keys.last()]))
        } else {
            prev
        }
    }
}

/// A hit count never exceeds the number of hits.
proof fn lemma_profile_bounds(hs: Seq<(Seq<char>, BranchId)>)
    ensures
        forall|k: Seq<char>|
            #[trigger] profiles_of(hs).contains_key(k) ==> profiles_of(hs)[k].hits <= hs.len()
                && profiles_of(hs)[k].tests <= hs.len(),
    decreases hs.len(),
{
    if hs.len() > 0 {
        lemma_profile_bounds(hs.drop_last());
    }
}

// ───────────────────────── code ─────────────────────────

/// Stable string key of a branch, for keying profiles:
/// `file_id:line:col:direction:condition` (255 for no condition index).
pub fn branch_key(b: &BranchId) -> (s: String)
    ensures
        s@ == spec_branch_key(*b),
{
    let mut out: Vec<char> = Vec::new();
    push_decimal(&mut out, b.file_id);
    out.push(':');
    push_decimal(&mut out, b.line as u64);
    out.push(':');
    push_decimal(&mut out, b.col as u64);
    out.push(':');
    push_decimal(&mut out, b.direction as u64);
    out.push(':');
    let c: u8 = match b.condition_index {
        Some(c) => c,
        None => 255,
    };
    push_decimal(&mut out, c as u64);
    assert(out@ =~= spec_branch_key(*b));
    string_of(&out)
}

/// Whether one of `names` is `name`.
fn names_contain(names: &Vec<String>, name: &str) -> (b: bool)
    ensures
        b == names@.map_values(|s: String| s@).contains(name@),
{
    let nc = crate::text::chars_of(name);
    let ghost nv = names@.map_values(|s: String| s@);
    let mut i: usize = 0;
    while i < names.len()
        invariant
            i <= names@.len(),
            nc@ == name@,
            nv == names@.map_values(|s: String| s@),
            forall|j: int| 0 <= j < i ==> nv[j] != name@,
        decreases names@.len() - i,
    {
        let c = crate::text::chars_of(names[i].as_str());
        if crate::sorted::same_text(&c, &nc) {
            assert(nv[i as int] == name@);
            return true;
        }
        i = i + 1;
    }
    false
}

impl BranchIndex {
    /// Builds the profile of every branch that the traces hit: per branch key,
    /// the first branch seen, the number of hits, and the number and names of
    /// the distinct tests that reach it, each named once, in trace order.
    pub fn build_profiles(traces: &[TestTrace]) -> (m: StrMap<BranchProfile>)
        requires
            hits(traces@).len() <= usize::MAX,
        ensures
            profiles_view(m@) == profiles_of(hits(traces@)),
    {
        let mut map: StrMap<BranchProfile> = StrMap::new();
        let ghost all = hits(traces@);
        let mut i: usize = 0;
        assert(profiles_view(map@) =~= Map::<Seq<char>, ProfileView>::empty());
        assert(traces@.take(0) =~= Seq::<TestTrace>::empty());
        while i < traces.len()
            invariant
                i <= traces@.len(),
                all == hits(traces@),
                all.len() <= usize::MAX,
                profiles_view(map@) == profiles_of(hits(traces@.take(i as int))),
            decreases traces@.len() - i,
        {
            let trace = &traces[i];
            let ghost done = hits(traces@.take(i as int));
            let ghost here = trace.branches@.map_values(|b: BranchId| (trace.test_name@, b));
            proof {
                assert(traces@.take(i + 1).drop_last() =~= traces@.take(i as int));
                assert(hits(traces@.take(i + 1)) == done + here);
                lemma_hits_prefix(traces@, i + 1);
            }
            let mut j: usize = 0;
            assert(done + here.take(0) =~= done);
            while j < trace.branches.len()
                invariant
                    j <= trace.branches@.len(),
                    here == trace.branches@.map_values(|b: BranchId| (trace.test_name@, b)),
                    (done + here).len() <= usize::MAX,
                    profiles_view(map@) == profiles_of(done + here.take(j as int)),
                decreases trace.branches@.len() - j,
            {
                let b = trace.branches[j];
                let key = branch_key(&b);
                let ghost prev = done + here.take(j as int);
                proof {
                    assert((done + here.take(j + 1)).drop_last() =~= prev);
                    assert((done + here.take(j + 1)).last() == (trace.test_name@, b));
                    lemma_profile_bounds(prev);
                }
                let ghost mv = map@;
                match map.remove(key.as_str()) {
                    Some(mut p) => {
                        let ghost pv = profile_view(p);
                        assert(profiles_of(prev).contains_key(key@));
                        assert(pv == profiles_of(prev)[key@]);
                        assert(prev.len() < (done + here).len());
                        p.hit_count = p.hit_count + 1;
                        if names_contain(&p.test_names, trace.test_name.as_str()) {
                            assert(profile_view(p) == ProfileView {
                                branch: pv.branch,
                                hits: pv.hits + 1,
                                tests: pv.tests,
                                names: pv.names,
                            });
                        } else {
                            p.test_count = p.test_count + 1;
                            let name = String::from_str(trace.test_name.as_str());
                            p.test_names.push(name);
                            assert(p.test_names@.map_values(|s: String| s@) =~= pv.names.push(
                                trace.test_name@,
                            ));
                            assert(profile_view(p) == ProfileView {
                                branch: pv.branch,
                                hits: pv.hits + 1,
                                tests: pv.tests + 1,
                                names: pv.names.push(trace.test_name@),
                            });
                        }
                        map.insert(key, p);
                    },
                    None => {
                        assert(!profiles_of(prev).contains_key(key@));
                        let mut names: Vec<String> = Vec::new();
                        names.push(String::from_str(trace.test_name.as_str()));
                        let p = BranchProfile { branch: b, hit_count: 1, test_count: 1, test_names: names };
                        assert(p.test_names@.map_values(|s: String| s@) =~= seq![trace.test_name@]);
                        map.insert(key, p);
                    },
                }
                assert(profiles_view(map@) =~= profiles_of(done + here.take(j + 1)));
                j = j + 1;
            }
            assert(here.take(j as int) =~= here);
            i = i + 1;
        }
        assert(traces@.take(traces@.len() as int) =~= traces@);
        map
    }

    /// The branches of `all_branches` that no trace hits (whose key has no
    /// profile), in order.
    pub fn uncovered_branch_ids(&self, all_branches: &[BranchId]) -> (r: Vec<BranchId>)
        ensures
            r@ == uncovered(all_branches@, self.profiles@.dom()),
    {
        let mut r: Vec<BranchId> = Vec::new();
        let mut i: usize = 0;
        assert(all_branches@.take(0) =~= Seq::<BranchId>::empty());
        while i < all_branches.len()
            invariant
                i <= all_branches@.len(),
                r@ == uncovered(all_branches@.take(i as int), self.profiles@.dom()),
            decreases all_branches@.len() - i,
        {
            let b = all_branches[i];
            assert(all_branches@.take(i + 1).drop_last() =~= all_branches@.take(i as int));
            let key = branch_key(&b);
            if !self.profiles.contains_key(key.as_str()) {
                r.push(b);
            }
            i = i + 1;
        }
        assert(all_branches@.take(all_branches@.len() as int) =~= all_branches@);
        r
    }

    /// The profiles, in key order, whose branch has no hit.
    pub fn dead_branches(&self) -> (r: Vec<&BranchProfile>)
        ensures
            r@.map_values(|p: &BranchProfile| profile_view(*p)) == dead_profiles(
                self.profiles.key_order(),
                self.profiles@,
            ),
    {
        let n = self.profiles.len();
        let ghost keys = self.profiles.key_order();
        let mut r: Vec<&BranchProfile> = Vec::new();
        let mut i: usize = 0;
        assert(keys.take(0) =~= Seq::<Seq<char>>::empty());
        assert(r@.map_values(|p: &BranchProfile| profile_view(*p)) =~= Seq::<ProfileView>::empty());
        while i < n
            invariant
                i <= n,
                keys == self.profiles.key_order(),
                n == keys.len(),
                r@.map_values(|p: &BranchProfile| profile_view(*p)) == dead_profiles(
                    keys.take(i as int),
                    self.profiles@,
                ),
            decreases n - i,
        {
            let (k, p) = self.profiles.entry_at(i);
            assert(keys.take(i + 1).drop_last() =~= keys.take(i as int));
            let ghost before = r@;
            if p.hit_count == 0 {
                r.push(p);
                assert(r@.map_values(|p: &BranchProfile| profile_view(*p)) =~= before.map_values(
                    |p: &BranchProfile| profile_view(*p),
                ).push(profile_view(*p)));
            }
            i = i + 1;
        }
        assert(keys.take(n as int) =~= keys);
        r
    }

    /// Whether the sources changed since the index was built: the stored hash
    /// differs from `current_hash`.
    pub fn is_stale(&self, current_hash: &str) -> (b: bool)
        ensures
            b == (self.source_hash@ != current_hash@),
    {
        let v = crate::text::chars_of(self.source_hash.as_str());
        !eq_str(&v, current_hash)
    }
}

/// Hits of a prefix of the traces are no more than all the hits.
proof fn lemma_hits_prefix(traces: Seq<TestTrace>, k: int)
    requires
        0 <= k <= traces.len(),
    ensures
        hits(traces.take(k)).len() <= hits(traces).len(),
    decreases traces.len() - k,
{
    if k < traces.len() {
        lemma_hits_prefix(traces, k + 1);
        assert(traces.take(k + 1).drop_last() =~= traces.take(k));
    } else {
        assert(traces.take(k) =~= traces);
    }
}

} // verus!
