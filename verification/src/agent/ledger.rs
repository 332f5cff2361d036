//! Dedup-aware bug accumulator: collects bug reports found during an
//! exploration run, keeping one report per `(class, location)`.
use vstd::prelude::*;
use crate::strmap::StrMap;
use crate::text::{
    chars_of, contains, contains_str, digit_prefix, digit_prefix_len, find, find_exec, lemma_find,
    lines, lines_of, push_all, push_str, slice_chars, split_ws, split_whitespace_of, starts_with,
    starts_with_str, string_of, trim, trim_chars, trim_parens, trim_parens_bounds,
};
use crate::types::{BugClass, BugReport, ExecutionResult, class_name, class_of_status};

verus! {

/// Python traceback location `File "path", line N` at the start of `t`.
pub open spec fn python_location(t: Seq<char>) -> Option<Seq<char>> {
    if starts_with(t, "File \""@) {
        let rest = t.subrange(6, t.len() as int);
        match find(rest, "\""@) {
            Some(q) => {
                let path = rest.subrange(0, q);
                let lp = rest.subrange(q + 1, rest.len() as int);
                match find(lp, "line "@) {
                    Some(n) => {
                        let num = digit_prefix(lp.subrange(n + 5, lp.len() as int));
                        if num.len() > 0 {
                            Some(path + ":"@ + num)
                        } else {
                            None
                        }
                    },
                    None => None,
                }
            },
            None => None,
        }
    } else {
        None
    }
}

/// `path:line` location in one whitespace-delimited token, stripped of
/// surrounding parentheses and commas: the part before the first `:` must
/// hold a `.` or `/` and be longer than one character, and a line number
/// must follow the colon.
pub open spec fn token_location(tok: Seq<char>) -> Option<Seq<char>> {
    let t = trim_parens(tok);
    match find(t, ":"@) {
        Some(c) => {
            let before = t.subrange(0, c);
            let ln = digit_prefix(t.subrange(c + 1, t.len() as int));
            if (contains(before, "."@) || contains(before, "/"@)) && before.len() > 1 && ln.len()
                > 0 {
                Some(before + ":"@ + ln)
            } else {
                None
            }
        },
        None => None,
    }
}

/// The location of the first token that has one.
pub open spec fn first_token_location(toks: Seq<Seq<char>>) -> Option<Seq<char>>
    decreases toks.len(),
{
    if toks.len() == 0 {
        None
    } else {
        match token_location(toks[0]) {
            Some(l) => Some(l),
            None => first_token_location(toks.drop_first()),
        }
    }
}

/// The location in one line: the Python form first, then the tokens.
pub open spec fn line_location(line: Seq<char>) -> Option<Seq<char>> {
    let t = trim(line);
    match python_location(t) {
        Some(l) => Some(l),
        None => first_token_location(split_ws(t)),
    }
}

/// The location of the first line that has one.
pub open spec fn first_line_location(ls: Seq<Seq<char>>) -> Option<Seq<char>>
    decreases ls.len(),
{
    if ls.len() == 0 {
        None
    } else {
        match line_location(ls[0]) {
            Some(l) => Some(l),
            None => first_line_location(ls.drop_first()),
        }
    }
}

/// First `file:line` location mentioned in error output.
pub open spec fn location_in(stderr: Seq<char>) -> Option<Seq<char>> {
    first_line_location(lines(stderr))
}

/// View of an optional string.
pub open spec fn opt_view(o: Option<String>) -> Option<Seq<char>> {
    match o {
        Some(s) => Some(s@),
        None => None,
    }
}

fn python_location_exec(t: &[char]) -> (r: Option<Vec<char>>)
    ensures
        match r {
            Some(v) => python_location(t@) == Some(v@),
            None => python_location(t@) is None,
        },
{
    if !starts_with_str(t, "File \"") {
        return None;
    }
    proof {
        reveal_strlit("File \"");
    }
    let rest = slice_chars(t, 6, t.len());
    let quote = chars_of("\"");
    let q = match find_exec(&rest, &quote) {
        Some(q) => q,
        None => return None,
    };
    proof {
        lemma_find(rest@, quote@);
        reveal_strlit("\"");
    }
    let lp = slice_chars(&rest, q + 1, rest.len());
    let line_kw = chars_of("line ");
    let n = match find_exec(&lp, &line_kw) {
        Some(n) => n,
        None => return None,
    };
    proof {
        lemma_find(lp@, line_kw@);
        reveal_strlit("line ");
    }
    let k = digit_prefix_len(&lp, n + 5);
    if k == 0 {
        return None;
    }
    let mut out = slice_chars(&rest, 0, q);
    push_str(&mut out, ":");
    let digits = slice_chars(&lp, n + 5, n + 5 + k);
    push_all(&mut out, &digits);
    Some(out)
}

fn token_location_exec(tok: &[char]) -> (r: Option<Vec<char>>)
    ensures
        match r {
            Some(v) => token_location(tok@) == Some(v@),
            None => token_location(tok@) is None,
        },
{
    let (a, b) = trim_parens_bounds(tok, 0, tok.len());
    assert(tok@.subrange(0, tok@.len() as int) =~= tok@);
    let t = slice_chars(tok, a, b);
    let colon = chars_of(":");
    let c = match find_exec(&t, &colon) {
        Some(c) => c,
        None => return None,
    };
    proof {
        lemma_find(t@, colon@);
        reveal_strlit(":");
    }
    let before = slice_chars(&t, 0, c);
    let k = digit_prefix_len(&t, c + 1);
    if (contains_str(&before, ".") || contains_str(&before, "/")) && before.len() > 1 && k > 0 {
        let mut out = before;
        push_str(&mut out, ":");
        let digits = slice_chars(&t, c + 1, c + 1 + k);
        push_all(&mut out, &digits);
        Some(out)
    } else {
        None
    }
}

fn line_location_exec(line: &[char]) -> (r: Option<Vec<char>>)
    ensures
        match r {
            Some(v) => line_location(line@) == Some(v@),
            None => line_location(line@) is None,
        },
{
    let t = trim_chars(line);
    if let Some(l) = python_location_exec(&t) {
        return Some(l);
    }
    let toks = split_whitespace_of(&t);
    let ghost tv = toks@.map_values(|x: Vec<char>| x@);
    let mut i: usize = 0;
    assert(tv.subrange(0, tv.len() as int) =~= tv);
    while i < toks.len()
        invariant
            i <= toks@.len(),
            tv == toks@.map_values(|x: Vec<char>| x@),
            tv == split_ws(t@),
            t@ == trim(line@),
            python_location(t@) is None,
            first_token_location(tv) == first_token_location(tv.subrange(i as int, tv.len() as int)),
        decreases toks@.len() - i,
    {
        let ghost rest = tv.subrange(i as int, tv.len() as int);
        assert(rest[0] == toks@[i as int]@);
        assert(rest.drop_first() =~= tv.subrange(i + 1, tv.len() as int));
        if let Some(l) = token_location_exec(&toks[i]) {
            assert(rest.len() > 0);
            assert(token_location(rest[0]) == Some(l@));
            assert(first_token_location(rest) == Some(l@));
            return Some(l);
        }
        i = i + 1;
    }
    assert(tv.subrange(i as int, tv.len() as int) =~= Seq::<Seq<char>>::empty());
    None
}

/// First `file:line` pattern in error output: a Python traceback line
/// (`File "foo.py", line 42` gives `foo.py:42`), or a `path:line[:col]` token
/// (`src/main.rs:42:5` gives `src/main.rs:42`).
pub fn extract_location(stderr: &str) -> (r: Option<String>)
    ensures
        opt_view(r) == location_in(stderr@),
{
    let sv = chars_of(stderr);
    let ls = lines_of(&sv);
    let ghost lv = ls@.map_values(|x: Vec<char>| x@);
    let mut i: usize = 0;
    assert(lv.subrange(0, lv.len() as int) =~= lv);
    while i < ls.len()
        invariant
            i <= ls@.len(),
            lv == ls@.map_values(|x: Vec<char>| x@),
            lv == lines(sv@),
            sv@ == stderr@,
            first_line_location(lv) == first_line_location(lv.subrange(i as int, lv.len() as int)),
        decreases ls@.len() - i,
    {
        let ghost rest = lv.subrange(i as int, lv.len() as int);
        assert(rest[0] == ls@[i as int]@);
        assert(rest.drop_first() =~= lv.subrange(i + 1, lv.len() as int));
        if let Some(l) = line_location_exec(&ls[i]) {
            assert(rest.len() > 0);
            assert(line_location(rest[0]) == Some(l@));
            assert(first_line_location(rest) == Some(l@));
            return Some(string_of(&l));
        }
        i = i + 1;
    }
    assert(lv.subrange(i as int, lv.len() as int) =~= Seq::<Seq<char>>::empty());
    None
}

/// Dedup keys of a report list.
pub open spec fn report_keys(rs: Seq<BugReport>) -> Seq<Seq<char>> {
    rs.map_values(|r: BugReport| r.spec_dedup_key())
}

/// No two reports share a dedup key.
pub open spec fn no_duplicate_bugs(rs: Seq<BugReport>) -> bool {
    forall|i: int, j: int|
        0 <= i < j < rs.len() ==> rs[i].spec_dedup_key() != rs[j].spec_dedup_key()
}

/// Number of reports of class `c`.
pub open spec fn class_count(rs: Seq<BugReport>, c: Seq<char>) -> nat
    decreases rs.len(),
{
    if rs.len() == 0 {
        0
    } else {
        class_count(rs.drop_last(), c) + if class_name(rs.last().class) == c {
            1nat
        } else {
            0nat
        }
    }
}

/// Some report has class name `c`.
pub open spec fn class_present(rs: Seq<BugReport>, c: Seq<char>) -> bool {
    exists|i: int| 0 <= i < rs.len() && class_name(rs[i].class) == c
}

/// Totals of a set of bug reports.
pub struct BugSummary {
    pub total: usize,
    pub by_class: StrMap<usize>,
}

/// Accumulates bugs found during exploration, deduplicating by class + location.
pub struct BugLedger {
    reports: Vec<BugReport>,
    seen: Vec<String>,
}

impl BugLedger {
    /// The unique reports recorded so far, oldest first.
    pub closed spec fn recorded(&self) -> Seq<BugReport> {
        self.reports@
    }

    /// The ledger's bookkeeping is consistent: one seen key per report.
    pub closed spec fn inv(&self) -> bool {
        &&& self.seen@.len() == self.reports@.len()
        &&& forall|i: int|
            0 <= i < self.seen@.len() ==> self.seen@[i]@ == #[trigger] self.reports@[i].spec_dedup_key()
        &&& no_duplicate_bugs(self.reports@)
    }

    /// An empty ledger.
    pub fn new() -> (l: Self)
        ensures
            l.inv(),
            l.recorded() == Seq::<BugReport>::empty(),
    {
        BugLedger { reports: Vec::new(), seen: Vec::new() }
    }

    /// Records a bug from an execution result: a passing run records nothing;
    /// otherwise a report of the status's class, with the result's seed,
    /// output, new branches, the iteration and the first location in the
    /// error output, is recorded unless its class and location were seen.
    /// Returns whether a new bug was recorded.
    pub fn record_from_result(&mut self, result: &ExecutionResult, iteration: u64) -> (b: bool)
        requires
            old(self).inv(),
        ensures
            final(self).inv(),
            class_of_status(result.status) is None ==> !b && final(self).recorded() == old(
                self,
            ).recorded(),
            class_of_status(result.status) matches Some(c) ==> {
                let key = class_name(c) + ":"@ + match location_in(
                    result.stderr@,
                ) {
                    Some(l) => l,
                    None => "unknown"@,
                };
                &&& b == !report_keys(old(self).recorded()).contains(key)
                &&& b ==> final(self).recorded().len() == old(self).recorded().len() + 1
                    && final(self).recorded().drop_last() == old(self).recorded() && {
                    let r = final(self).recorded().last();
                    &&& r.class == c
                    &&& r.message@ == result.stderr@
                    &&& opt_view(r.location) == location_in(result.stderr@)
                    &&& r.triggering_branches@ == result.new_branches@
                    &&& r.discovered_at_iteration == iteration
                }
                &&& !b ==> final(self).recorded() == old(self).recorded()
            },
    {
        let class = match BugClass::from_status(result.status) {
            Some(c) => c,
            None => return false,
        };
        let mut report = BugReport::new(class, result.seed_id, result.stderr.clone());
        report.triggering_branches = result.new_branches.clone();
        assert(report.triggering_branches@ =~= result.new_branches@);
        report.discovered_at_iteration = iteration;
        report.location = extract_location(result.stderr.as_str());
        proof {
            assert(report.spec_dedup_key() =~= class_name(
                class,
            ) + ":"@ + match location_in(result.stderr@) {
                Some(l) => l,
                None => "unknown"@,
            });
        }
        self.record(report)
    }

    /// Records a pre-built report unless one with the same class and location
    /// is already there. Returns whether it was new.
    pub fn record(&mut self, report: BugReport) -> (b: bool)
        requires
            old(self).inv(),
        ensures
            final(self).inv(),
            b == !report_keys(old(self).recorded()).contains(report.spec_dedup_key()),
            b ==> final(self).recorded() == old(self).recorded().push(report),
            !b ==> final(self).recorded() == old(self).recorded(),
    {
        let key = report.dedup_key();
        let mut i: usize = 0;
        while i < self.seen.len()
            invariant
                i <= self.seen@.len(),
                self.inv(),
                key@ == report.spec_dedup_key(),
                forall|j: int| 0 <= j < i ==> self.seen@[j]@ != key@,
            decreases self.seen@.len() - i,
        {
            if self.seen[i] == key {
                proof {
                    assert(report_keys(self.reports@)[i as int] == key@);
                }
                return false;
            }
            i = i + 1;
        }
        proof {
            if report_keys(self.reports@).contains(key@) {
                let j = choose|j: int| 0 <= j < report_keys(self.reports@).len() && report_keys(self.reports@)[j] == key@;
                assert(self.seen@[j]@ == self.reports@[j].spec_dedup_key());
            }
        }
        let ghost old_reports = self.reports@;
        self.seen.push(key);
        self.reports.push(report);
        proof {
            assert forall|a: int, c: int| 0 <= a < c < self.reports@.len() implies self.reports@[a].spec_dedup_key()
                != self.reports@[c].spec_dedup_key() by {
                if c == old_reports.len() {
                    assert(self.seen@[a]@ == old_reports[a].spec_dedup_key());
                }
            }
        }
        true
    }

    /// Number of unique bugs recorded.
    pub fn count(&self) -> (n: usize)
        ensures
            n == self.recorded().len(),
    {
        self.reports.len()
    }

    /// Totals of the recorded bugs: their number, and per class name the
    /// number of reports of that class.
    pub fn summary(&self) -> (s: BugSummary)
        ensures
            s.total == self.recorded().len(),
            forall|k: Seq<char>|
                #[trigger] s.by_class@.contains_key(k) <==> class_present(self.recorded(), k),
            forall|k: Seq<char>|
                #[trigger] s.by_class@.contains_key(k) ==> s.by_class@[k] == class_count(
                    self.recorded(),
                    k,
                ),
    {
        let mut m: StrMap<usize> = StrMap::new();
        let mut i: usize = 0;
        while i < self.reports.len()
            invariant
                i <= self.reports@.len(),
                forall|k: Seq<char>|
                    #[trigger] m@.contains_key(k) <==> class_present(self.reports@.take(i as int), k),
                forall|k: Seq<char>|
                    #[trigger] m@.contains_key(k) ==> m@[k] == class_count(
                        self.reports@.take(i as int),
                        k,
                    ),
                forall|k: Seq<char>| #[trigger] m@.contains_key(k) ==> m@[k] <= i,
            decreases self.reports@.len() - i,
        {
            let ghost pre = self.reports@.take(i as int);
            let ghost post = self.reports@.take(i + 1);
            let name = self.reports[i].class.name();
            let cur: usize = match m.get(name) {
                Some(c) => *c,
                None => 0,
            };
            m.insert(String::from_str(name), cur + 1);
            proof {
                assert(post.drop_last() =~= pre);
                assert(post.last() == self.reports@[i as int]);
                assert forall|k: Seq<char>| #[trigger] m@.contains_key(k) <==> class_present(
                    post,
                    k,
                ) by {
                    if class_present(pre, k) {
                        let j = choose|j: int| 0 <= j < pre.len() && class_name(pre[j].class) == k;
                        assert(post[j] == pre[j]);
                    }
                    if class_present(post, k) && k != name@ {
                        let j = choose|j: int| 0 <= j < post.len() && class_name(post[j].class) == k;
                        assert(j < pre.len());
                        assert(pre[j] == post[j]);
                    }
                    if k == name@ {
                        assert(class_name(post[i as int].class) == k);
                    }
                }
                assert forall|k: Seq<char>| #[trigger] m@.contains_key(k) implies m@[k]
                    == class_count(post, k) by {
                    if k != name@ {
                        assert(class_count(post, k) == class_count(pre, k));
                    } else if !class_present(pre, k) {
                        lemma_class_count_zero(pre, k);
                    }
                }
            }
            i = i + 1;
        }
        assert(self.reports@.take(self.reports@.len() as int) =~= self.reports@);
        BugSummary { total: self.reports.len(), by_class: m }
    }

    /// The recorded reports, oldest first.
    pub fn reports(&self) -> (rs: &[BugReport])
        ensures
            rs@ == self.recorded(),
    {
        self.reports.as_slice()
    }

    /// Same as [`BugLedger::new`].
    pub fn default() -> (l: Self)
        ensures
            l.inv(),
            l.recorded() == Seq::<BugReport>::empty(),
    {
        Self::new()
    }
}

/// A class that no report has counts zero.
pub proof fn lemma_class_count_zero(rs: Seq<BugReport>, c: Seq<char>)
    requires
        !class_present(rs, c),
    ensures
        class_count(rs, c) == 0,
    decreases rs.len(),
{
    if rs.len() > 0 {
        let t = rs.drop_last();
        assert(!class_present(t, c)) by {
            if class_present(t, c) {
                let j = choose|j: int| 0 <= j < t.len() && class_name(t[j].class) == c;
                assert(rs[j] == t[j]);
            }
        }
        lemma_class_count_zero(t, c);
        assert(class_name(rs[rs.len() - 1].class) != c);
    }
}

/// Recording is idempotent: recording a report whose class and location are
/// already in the ledger changes nothing, and the ledger never holds two
/// reports for the same class and location.
pub proof fn law_dedup(rs: Seq<BugReport>, r: BugReport)
    requires
        no_duplicate_bugs(rs),
    ensures
        !report_keys(rs).contains(r.spec_dedup_key()) ==> no_duplicate_bugs(rs.push(r)),
{
    if !report_keys(rs).contains(r.spec_dedup_key()) {
        assert forall|i: int, j: int| 0 <= i < j < rs.push(r).len() implies rs.push(r)[i].spec_dedup_key()
            != rs.push(r)[j].spec_dedup_key() by {
            if j == rs.len() {
                assert(report_keys(rs)[i] == rs[i].spec_dedup_key());
            }
        }
    }
}

} // verus!
