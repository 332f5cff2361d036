//! Test prioritization: rankings by coverage and by speed, and their
//! aggregation by Borda count.
use vstd::prelude::*;
use crate::index::types::TestTrace;
use crate::sorted::same_text;
use crate::text::chars_of;

verus! {

/// Ranks tests by the number of branches they cover, most first.
pub struct CoverageRanker;

/// Ranks tests by duration, fastest first.
pub struct SpeedRanker;

// ───────────────────────── stable sort by key ─────────────────────────

/// Inserts `x` after every entry whose key is at least its key.
pub open spec fn insert_desc(s: Seq<(usize, u64)>, x: (usize, u64)) -> Seq<(usize, u64)>
    decreases s.len(),
{
    if s.len() == 0 {
        seq![x]
    } else if s.last().1 >= x.1 {
        s.push(x)
    } else {
        insert_desc(s.drop_last(), x).push(s.last())
    }
}

/// The entries sorted by key, largest first; equal keys keep their order.
pub open spec fn sort_desc(s: Seq<(usize, u64)>) -> Seq<(usize, u64)>
    decreases s.len(),
{
    if s.len() == 0 {
        Seq::empty()
    } else {
        insert_desc(sort_desc(s.drop_last()), s.last())
    }
}

/// Keys never increase along `s`.
pub open spec fn keys_desc(s: Seq<(usize, u64)>) -> bool {
    forall|i: int, j: int| 0 <= i < j < s.len() ==> s[i].1 >= s[j].1
}

/// Where `x` goes: after the leading entries whose key is at least its key.
pub open spec fn insert_pos(s: Seq<(usize, u64)>, x: (usize, u64), p: int) -> bool {
    &&& 0 <= p <= s.len()
    &&& forall|i: int| 0 <= i < p ==> s[i].1 >= x.1
    &&& p < s.len() ==> s[p].1 < x.1
}

proof fn lemma_insert_desc(s: Seq<(usize, u64)>, x: (usize, u64), p: int)
    requires
        keys_desc(s),
        insert_pos(s, x, p),
    ensures
        insert_desc(s, x) == s.insert(p, x),
        keys_desc(s.insert(p, x)),
    decreases s.len(),
{
    if s.len() == 0 {
        assert(s.insert(p, x) =~= seq![x]);
    } else if s.last().1 >= x.1 {
        assert(p == s.len()) by {
            if p < s.len() {
                assert(s[p].1 >= s[s.len() - 1].1);
            }
        }
        assert(s.insert(p, x) =~= s.push(x));
    } else {
        let d = s.drop_last();
        assert(p < s.len()) by {
            if p == s.len() {
                assert(s[s.len() - 1].1 >= x.1);
            }
        }
        lemma_insert_desc(d, x, p);
        assert(s.insert(p, x) =~= d.insert(p, x).push(s.last()));
    }
    let t = s.insert(p, x);
    assert forall|i: int, j: int| 0 <= i < j < t.len() implies t[i].1 >= t[j].1 by {
        let ti = if i < p { s[i] } else if i == p { x } else { s[i - 1] };
        let tj = if j < p { s[j] } else if j == p { x } else { s[j - 1] };
        assert(t[i] == ti);
        assert(t[j] == tj);
        if i == p && p < s.len() && j - 1 > p {
            assert(s[p].1 >= s[j - 1].1);
        }
    }
}

/// Sorts by key, largest first, keeping the order of equal keys (see [`sort_desc`]).
fn sort_by_key_desc(items: &Vec<(usize, u64)>) -> (r: Vec<(usize, u64)>)
    ensures
        r@ == sort_desc(items@),
{
    let mut r: Vec<(usize, u64)> = Vec::new();
    let mut k: usize = 0;
    assert(items@.take(0) =~= Seq::<(usize, u64)>::empty());
    while k < items.len()
        invariant
            k <= items@.len(),
            r@ == sort_desc(items@.take(k as int)),
            keys_desc(r@),
        decreases items@.len() - k,
    {
        assert(items@.take(k + 1).drop_last() =~= items@.take(k as int));
        assert(items@.take(k + 1).last() == items@[k as int]);
        let x = items[k];
        let mut p: usize = 0;
        while p < r.len() && r[p].1 >= x.1
            invariant
                p <= r@.len(),
                forall|i: int| 0 <= i < p ==> r@[i].1 >= x.1,
            decreases r@.len() - p,
        {
            p = p + 1;
        }
        proof {
            lemma_insert_desc(r@, x, p as int);
        }
        r.insert(p, x);
        k = k + 1;
    }
    assert(items@.take(items@.len() as int) =~= items@);
    r
}

// ───────────────────────── rankers ─────────────────────────

/// `(index, branches covered)` of each test, in order.
pub open spec fn coverage_keys(ts: Seq<TestTrace>) -> Seq<(usize, u64)> {
    Seq::new(ts.len(), |i: int| (i as usize, ts[i].branches@.len() as u64))
}

/// `(index, u64::MAX - duration)` of each test, in order: the fastest test
/// has the largest key.
pub open spec fn speed_keys(ts: Seq<TestTrace>) -> Seq<(usize, u64)> {
    Seq::new(ts.len(), |i: int| (i as usize, (u64::MAX - ts[i].duration_ms) as u64))
}

/// The ranking `r` lists, in the order of `order`, the names of the tests
/// `ts` with the values `value` gives them.
pub open spec fn ranks_as(
    r: Seq<(String, u64)>,
    order: Seq<(usize, u64)>,
    ts: Seq<TestTrace>,
    value: spec_fn(TestTrace) -> u64,
) -> bool {
    &&& r.len() == order.len()
    &&& forall|i: int|
        0 <= i < r.len() ==> {
            &&& (#[trigger] r[i]).0@ == ts[order[i].0 as int].test_name@
            &&& r[i].1 == value(ts[order[i].0 as int])
        }
}

/// The ranking of the tests in the order of `order` (of indices into `tests`).
fn names_in_order(tests: &[TestTrace], order: &Vec<(usize, u64)>, coverage: bool) -> (r: Vec<(String, u64)>)
    requires
        forall|i: int| 0 <= i < order@.len() ==> (#[trigger] order@[i]).0 < tests@.len(),
        forall|i: int| 0 <= i < tests@.len() ==> (#[trigger] tests@[i]).branches@.len() <= u64::MAX,
    ensures
        ranks_as(
            r@,
            order@,
            tests@,
            if coverage {
                |t: TestTrace| t.branches@.len() as u64
            } else {
                |t: TestTrace| t.duration_ms
            },
        ),
{
    let ghost value = if coverage {
        |t: TestTrace| t.branches@.len() as u64
    } else {
        |t: TestTrace| t.duration_ms
    };
    let mut r: Vec<(String, u64)> = Vec::new();
    let mut i: usize = 0;
    while i < order.len()
        invariant
            i <= order@.len(),
            forall|q: int| 0 <= q < order@.len() ==> (#[trigger] order@[q]).0 < tests@.len(),
            forall|q: int| 0 <= q < tests@.len() ==> (#[trigger] tests@[q]).branches@.len() <= u64::MAX,
            value == (if coverage {
                |t: TestTrace| t.branches@.len() as u64
            } else {
                |t: TestTrace| t.duration_ms
            }),
            r@.len() == i,
            forall|q: int|
                0 <= q < i ==> {
                    &&& (#[trigger] r@[q]).0@ == tests@[order@[q].0 as int].test_name@
                    &&& r@[q].1 == value(tests@[order@[q].0 as int])
                },
        decreases order@.len() - i,
    {
        let t = &tests[order[i].0];
        let v: u64 = if coverage {
            t.branches.len() as u64
        } else {
            t.duration_ms
        };
        r.push((t.test_name.clone(), v));
        i = i + 1;
    }
    r
}

impl CoverageRanker {
    /// The ranker's name.
    pub fn name(&self) -> (s: &'static str)
        ensures
            s@ == "coverage"@,
    {
        "coverage"
    }

    /// The tests with the number of branches each covers, most first; tests
    /// that cover as many keep their order.
    pub fn rank(&self, tests: &[TestTrace]) -> (r: Vec<(String, u64)>)
        requires
            forall|i: int| 0 <= i < tests@.len() ==> (#[trigger] tests@[i]).branches@.len() <= u64::MAX,
        ensures
            ranks_as(r@, sort_desc(coverage_keys(tests@)), tests@, |t: TestTrace| t.branches@.len() as u64),
    {
        let mut keys: Vec<(usize, u64)> = Vec::new();
        let mut i: usize = 0;
        while i < tests.len()
            invariant
                i <= tests@.len(),
                forall|q: int| 0 <= q < tests@.len() ==> (#[trigger] tests@[q]).branches@.len() <= u64::MAX,
                keys@ == coverage_keys(tests@).take(i as int),
            decreases tests@.len() - i,
        {
            keys.push((i, tests[i].branches.len() as u64));
            assert(keys@ =~= coverage_keys(tests@).take(i + 1));
            i = i + 1;
        }
        assert(coverage_keys(tests@).take(tests@.len() as int) =~= coverage_keys(tests@));
        let order = sort_by_key_desc(&keys);
        proof {
            lemma_sort_indices(keys@, tests@.len() as int);
        }
        names_in_order(tests, &order, true)
    }
}

impl SpeedRanker {
    /// The ranker's name.
    pub fn name(&self) -> (s: &'static str)
        ensures
            s@ == "speed"@,
    {
        "speed"
    }

    /// The tests with their durations, fastest first; tests as fast keep
    /// their order.
    pub fn rank(&self, tests: &[TestTrace]) -> (r: Vec<(String, u64)>)
        requires
            forall|i: int| 0 <= i < tests@.len() ==> (#[trigger] tests@[i]).branches@.len() <= u64::MAX,
        ensures
            ranks_as(r@, sort_desc(speed_keys(tests@)), tests@, |t: TestTrace| t.duration_ms),
    {
        let mut keys: Vec<(usize, u64)> = Vec::new();
        let mut i: usize = 0;
        while i < tests.len()
            invariant
                i <= tests@.len(),
                keys@ == speed_keys(tests@).take(i as int),
            decreases tests@.len() - i,
        {
            keys.push((i, u64::MAX - tests[i].duration_ms));
            assert(keys@ =~= speed_keys(tests@).take(i + 1));
            i = i + 1;
        }
        assert(speed_keys(tests@).take(tests@.len() as int) =~= speed_keys(tests@));
        let order = sort_by_key_desc(&keys);
        proof {
            lemma_sort_indices(keys@, tests@.len() as int);
        }
        names_in_order(tests, &order, false)
    }
}

/// Sorting keeps the entries: every sorted index is an index of the input.
proof fn lemma_sort_indices(s: Seq<(usize, u64)>, n: int)
    requires
        forall|i: int| 0 <= i < s.len() ==> (#[trigger] s[i]).0 < n,
    ensures
        forall|i: int| 0 <= i < sort_desc(s).len() ==> (#[trigger] sort_desc(s)[i]).0 < n,
        sort_desc(s).len() == s.len(),
    decreases s.len(),
{
    if s.len() > 0 {
        lemma_sort_indices(s.drop_last(), n);
        lemma_insert_keeps(sort_desc(s.drop_last()), s.last(), n);
    }
}

proof fn lemma_insert_keeps(s: Seq<(usize, u64)>, x: (usize, u64), n: int)
    requires
        forall|i: int| 0 <= i < s.len() ==> (#[trigger] s[i]).0 < n,
        x.0 < n,
    ensures
        forall|i: int| 0 <= i < insert_desc(s, x).len() ==> (#[trigger] insert_desc(s, x)[i]).0 < n,
        insert_desc(s, x).len() == s.len() + 1,
    decreases s.len(),
{
    if s.len() > 0 && s.last().1 < x.1 {
        lemma_insert_keeps(s.drop_last(), x, n);
        let t = insert_desc(s.drop_last(), x);
        assert forall|i: int| 0 <= i < t.len() + 1 implies (#[trigger] t.push(s.last())[i]).0 < n by {
            if i < t.len() {
                assert(t.push(s.last())[i] == t[i]);
            }
        }
    }
}

// ───────────────────────── Borda count ─────────────────────────

/// The Borda points `name` gets from the first `k` entries of one ranking of
/// `n` entries: `n - i` for each position `i` holding it.
pub open spec fn points_upto(r: Seq<String>, k: int, name: Seq<char>) -> nat
    decreases k,
{
    if k <= 0 || k > r.len() {
        0
    } else {
        points_upto(r, k - 1, name) + if r[k - 1]@ == name {
            (r.len() - (k - 1)) as nat
        } else {
            0nat
        }
    }
}

/// The Borda score of `name` over the first `m` rankings.
pub open spec fn score_upto(rs: Seq<Vec<String>>, m: int, name: Seq<char>) -> nat
    decreases m,
{
    if m <= 0 || m > rs.len() {
        0
    } else {
        score_upto(rs, m - 1, name) + points_upto(rs[m - 1]@, rs[m - 1]@.len() as int, name)
    }
}

/// The Borda score of `name` over all rankings.
pub open spec fn borda_score(rs: Seq<Vec<String>>, name: Seq<char>) -> nat {
    score_upto(rs, rs.len() as int, name)
}

/// Every name of the first `m` rankings, once, in order of first appearance.
pub open spec fn names_upto(rs: Seq<Vec<String>>, m: int) -> Seq<Seq<char>>
    decreases m,
{
    if m <= 0 || m > rs.len() {
        Seq::empty()
    } else {
        add_names(names_upto(rs, m - 1), rs[m - 1]@, rs[m - 1]@.len() as int)
    }
}

/// `seen`, then the names of the first `k` entries of `r` not yet in it.
pub open spec fn add_names(seen: Seq<Seq<char>>, r: Seq<String>, k: int) -> Seq<Seq<char>>
    decreases k,
{
    if k <= 0 || k > r.len() {
        seen
    } else {
        let prev = add_names(seen, r, k - 1);
        if prev.contains(r[k - 1]@) {
            prev
        } else {
            prev.push(r[k - 1]@)
        }
    }
}

/// All points handed out: `n + (n - 1) + ... + 1` per ranking of `n` entries.
pub open spec fn borda_mass(rs: Seq<Vec<String>>) -> nat
    decreases rs.len(),
{
    if rs.len() == 0 {
        0
    } else {
        borda_mass(rs.drop_last()) + (rs.last()@.len() * (rs.last()@.len() + 1) / 2) as nat
    }
}

/// The names with their scores, in order of first appearance (indices into
/// `names`).
pub open spec fn name_scores(names: Seq<Seq<char>>, rs: Seq<Vec<String>>) -> Seq<(usize, u64)> {
    Seq::new(names.len(), |i: int| (i as usize, borda_score(rs, names[i]) as u64))
}

proof fn lemma_points_bound(r: Seq<String>, k: int, name: Seq<char>)
    requires
        0 <= k <= r.len(),
    ensures
        points_upto(r, k, name) <= k * r.len(),
    decreases k,
{
    if k > 0 {
        lemma_points_bound(r, k - 1, name);
        assert((k - 1) * r.len() + r.len() == k * r.len()) by (nonlinear_arith);
    }
}

/// The points of one ranking for `name` (see [`points_upto`]).
fn ranking_points(r: &Vec<String>, name: &Vec<char>) -> (p: u64)
    requires
        r@.len() * r@.len() <= u64::MAX,
    ensures
        p == points_upto(r@, r@.len() as int, name@),
{
    let n = r.len();
    let mut p: u64 = 0;
    let mut i: usize = 0;
    while i < n
        invariant
            i <= n,
            n == r@.len(),
            n * n <= u64::MAX,
            p == points_upto(r@, i as int, name@),
        decreases n - i,
    {
        proof {
            lemma_points_bound(r@, i + 1, name@);
            assert((i + 1) * n <= n * n) by (nonlinear_arith)
                requires
                    i + 1 <= n;
        }
        if same_text(&chars_of(r[i].as_str()), name) {
            p = p + (n - i) as u64;
        }
        i = i + 1;
    }
    p
}

/// The sum of the squared lengths of the first `m` rankings.
pub open spec fn squares_upto(rs: Seq<Vec<String>>, m: int) -> nat
    decreases m,
{
    if m <= 0 || m > rs.len() {
        0
    } else {
        squares_upto(rs, m - 1) + (rs[m - 1]@.len() * rs[m - 1]@.len()) as nat
    }
}

/// A name's score over the first `m` rankings is at most the sum of their
/// squared lengths.
proof fn lemma_score_bound(rs: Seq<Vec<String>>, m: int, name: Seq<char>)
    requires
        0 <= m <= rs.len(),
    ensures
        score_upto(rs, m, name) <= squares_upto(rs, m),
    decreases m,
{
    if m > 0 {
        lemma_score_bound(rs, m - 1, name);
        lemma_points_bound(rs[m - 1]@, rs[m - 1]@.len() as int, name);
    }
}

/// Whether the rankings are small enough for [`borda_aggregate`]: the sum
/// of their squared lengths fits in a `u64`, which bounds every score.
pub fn borda_within_bounds(rankings: &[Vec<String>]) -> (b: bool)
    ensures
        b ==> forall|i: int| 0 <= i < rankings@.len() ==> (#[trigger] rankings@[i])@.len() * rankings@[i]@.len() <= u64::MAX,
        b ==> forall|name: Seq<char>| #[trigger] borda_score(rankings@, name) <= u64::MAX,
        b == (squares_upto(rankings@, rankings@.len() as int) <= u64::MAX),
{
    let mut total: u64 = 0;
    let mut i: usize = 0;
    while i < rankings.len()
        invariant
            i <= rankings@.len(),
            total == squares_upto(rankings@, i as int),
            forall|j: int| 0 <= j < i ==> (#[trigger] rankings@[j])@.len() * rankings@[j]@.len() <= squares_upto(rankings@, i as int),
        decreases rankings@.len() - i,
    {
        let n = rankings[i].len();
        proof {
            lemma_squares_mono(rankings@, i + 1, rankings@.len() as int);
        }
        let nn: u128 = n as u128;
        assert(nn * nn <= u128::MAX) by (nonlinear_arith)
            requires
                nn < 0x1_0000_0000_0000_0000,
        ;
        if nn * nn > (u64::MAX - total) as u128 {
            assert(squares_upto(rankings@, i + 1) > u64::MAX) by (nonlinear_arith)
                requires
                    squares_upto(rankings@, i + 1) == total + n * n,
                    n * n > u64::MAX - total,
            ;
            return false;
        }
        assert(n * n <= u64::MAX) by (nonlinear_arith)
            requires
                n * n <= u64::MAX - total,
                total >= 0,
        ;
        total = total + (n as u64) * (n as u64);
        i = i + 1;
    }
    proof {
        assert forall|name: Seq<char>| #[trigger] borda_score(rankings@, name) <= u64::MAX by {
            lemma_score_bound(rankings@, rankings@.len() as int, name);
        }
    }
    true
}

/// Squared-length sums only grow along the rankings.
proof fn lemma_squares_mono(rs: Seq<Vec<String>>, a: int, b: int)
    requires
        0 <= a <= b <= rs.len(),
    ensures
        squares_upto(rs, a) <= squares_upto(rs, b),
    decreases b - a,
{
    if a < b {
        lemma_squares_mono(rs, a, b - 1);
    }
}

/// Aggregates rankings (each a list of test names, best first) by Borda
/// count: position `i` of a ranking of `n` names earns `n - i` points, and
/// the names come with their summed points, most first; names with equal
/// points keep the order in which they first appear.
pub fn borda_aggregate(rankings: &[Vec<String>]) -> (r: Vec<(String, u64)>)
    requires
        forall|i: int| 0 <= i < rankings@.len() ==> (#[trigger] rankings@[i])@.len() * rankings@[i]@.len() <= u64::MAX,
        forall|name: Seq<char>| #[trigger] borda_score(rankings@, name) <= u64::MAX,
    ensures
        ({
            let names = names_upto(rankings@, rankings@.len() as int);
            let order = sort_desc(name_scores(names, rankings@));
            &&& r@.len() == order.len()
            &&& forall|i: int|
                0 <= i < r@.len() ==> {
                    &&& (#[trigger] r@[i]).0@ == names[order[i].0 as int]
                    &&& r@[i].1 == order[i].1
                }
        }),
{
    // Names in order of first appearance.
    let mut names: Vec<Vec<char>> = Vec::new();
    let mut m: usize = 0;
    while m < rankings.len()
        invariant
            m <= rankings@.len(),
            names@.map_values(|v: Vec<char>| v@) == names_upto(rankings@, m as int),
        decreases rankings@.len() - m,
    {
        let r = &rankings[m];
        let ghost before = names@.map_values(|v: Vec<char>| v@);
        let mut k: usize = 0;
        while k < r.len()
            invariant
                k <= r@.len(),
                m < rankings@.len(),
                *r == rankings@[m as int],
                names@.map_values(|v: Vec<char>| v@) == add_names(before, r@, k as int),
            decreases r@.len() - k,
        {
            let c = chars_of(r[k].as_str());
            let ghost nv = names@.map_values(|v: Vec<char>| v@);
            let mut found = false;
            let mut q: usize = 0;
            while q < names.len()
                invariant
                    q <= names@.len(),
                    nv == names@.map_values(|v: Vec<char>| v@),
                    found == exists|x: int| 0 <= x < q && nv[x] == c@,
                decreases names@.len() - q,
            {
                assert(nv[q as int] == names@[q as int]@);
                if same_text(&names[q], &c) {
                    found = true;
                }
                q = q + 1;
            }
            if !found {
                names.push(c);
                assert(names@.map_values(|v: Vec<char>| v@) =~= nv.push(r@[k as int]@));
            } else {
                assert(nv.contains(r@[k as int]@));
            }
            k = k + 1;
        }
        m = m + 1;
    }
    let ghost nv = names@.map_values(|v: Vec<char>| v@);
    // Scores, in order of first appearance.
    let mut items: Vec<(usize, u64)> = Vec::new();
    let mut i: usize = 0;
    while i < names.len()
        invariant
            i <= names@.len(),
            nv == names@.map_values(|v: Vec<char>| v@),
            nv == names_upto(rankings@, rankings@.len() as int),
            forall|q: int| 0 <= q < rankings@.len() ==> (#[trigger] rankings@[q])@.len() * rankings@[q]@.len() <= u64::MAX,
            forall|name: Seq<char>| #[trigger] borda_score(rankings@, name) <= u64::MAX,
            items@ == name_scores(nv, rankings@).take(i as int),
        decreases names@.len() - i,
    {
        let mut total: u64 = 0;
        let mut m2: usize = 0;
        while m2 < rankings.len()
            invariant
                m2 <= rankings@.len(),
                i < names@.len(),
                forall|q: int| 0 <= q < rankings@.len() ==> (#[trigger] rankings@[q])@.len() * rankings@[q]@.len() <= u64::MAX,
                forall|name: Seq<char>| #[trigger] borda_score(rankings@, name) <= u64::MAX,
                total == score_upto(rankings@, m2 as int, names@[i as int]@),
            decreases rankings@.len() - m2,
        {
            let p = ranking_points(&rankings[m2], &names[i]);
            proof {
                lemma_score_mono(rankings@, m2 + 1, names@[i as int]@);
            }
            total = total + p;
            m2 = m2 + 1;
        }
        items.push((i, total));
        assert(items@ =~= name_scores(nv, rankings@).take(i + 1));
        i = i + 1;
    }
    assert(name_scores(nv, rankings@).take(names@.len() as int) =~= name_scores(nv, rankings@));
    let order = sort_by_key_desc(&items);
    proof {
        lemma_sort_indices(items@, names@.len() as int);
    }
    let mut r: Vec<(String, u64)> = Vec::new();
    let mut j: usize = 0;
    while j < order.len()
        invariant
            j <= order@.len(),
            nv == names@.map_values(|v: Vec<char>| v@),
            forall|q: int| 0 <= q < order@.len() ==> (#[trigger] order@[q]).0 < names@.len(),
            r@.len() == j,
            forall|q: int|
                0 <= q < j ==> {
                    &&& (#[trigger] r@[q]).0@ == nv[order@[q].0 as int]
                    &&& r@[q].1 == order@[q].1
                },
        decreases order@.len() - j,
    {
        let (idx, score) = order[j];
        r.push((crate::text::string_of(&names[idx]), score));
        j = j + 1;
    }
    r
}

/// Scores only grow over more rankings, up to the full score.
proof fn lemma_score_mono(rs: Seq<Vec<String>>, m: int, name: Seq<char>)
    requires
        0 <= m <= rs.len(),
    ensures
        score_upto(rs, m, name) <= borda_score(rs, name),
    decreases rs.len() - m,
{
    if m < rs.len() {
        lemma_score_mono(rs, m + 1, name);
    }
}

} // verus!
