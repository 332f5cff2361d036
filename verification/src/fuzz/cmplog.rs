//! Input-to-state comparison feedback: the operand pairs of comparisons
//! observed in one execution, and the mutator that writes one operand of a
//! pair where the input holds the other.
use vstd::prelude::*;
use rand::rngs::ThreadRng;
use rand::RngCore;
use vstd::string::StringSliceAdditionalSpecFns;

verus! {

/// `rand::rngs::ThreadRng`, the thread-local random generator, carried
/// through opaquely.
#[verifier::external_type_specification]
#[verifier::external_body]
pub struct ExThreadRng(ThreadRng);

/// A random 32-bit number: calls `RngCore::next_u32` on the thread-local
/// generator. Nothing is stated of the value.
#[verifier::external_body]
fn next_u32(rng: &mut ThreadRng) -> u32 {
    rng.next_u32()
}

/// A single comparison observation: two byte strings being compared.
#[derive(Debug, Clone, PartialEq, Eq, Hash)]
pub struct CmpEntry {
    pub arg1: Vec<u8>,
    pub arg2: Vec<u8>,
}

impl CmpEntry {
    /// The observation that `arg1` was compared with `arg2`.
    pub fn new(arg1: Vec<u8>, arg2: Vec<u8>) -> (e: Self)
        ensures
            e.arg1@ == arg1@,
            e.arg2@ == arg2@,
    {
        CmpEntry { arg1, arg2 }
    }
}

/// The operand pair of an observation.
pub open spec fn pair_of(e: CmpEntry) -> (Seq<u8>, Seq<u8>) {
    (e.arg1@, e.arg2@)
}

/// The operand pairs of a list of observations.
pub open spec fn pairs_of(s: Seq<CmpEntry>) -> Seq<(Seq<u8>, Seq<u8>)> {
    s.map_values(|e: CmpEntry| pair_of(e))
}

/// The observations of one execution, each kept once, in the order first seen.
pub struct CmpLog {
    log: Vec<CmpEntry>,
}

impl CmpLog {
    /// The operand pairs kept, in the order first seen.
    pub closed spec fn pairs(&self) -> Seq<(Seq<u8>, Seq<u8>)> {
        pairs_of(self.log@)
    }

    /// No pair is kept twice.
    pub closed spec fn wf(&self) -> bool {
        self.pairs().no_duplicates()
    }

    /// An empty log.
    pub fn new() -> (l: Self)
        ensures
            l.wf(),
            l.pairs() == Seq::<(Seq<u8>, Seq<u8>)>::empty(),
    {
        let l = CmpLog { log: Vec::new() };
        assert(l.pairs() =~= Seq::<(Seq<u8>, Seq<u8>)>::empty());
        l
    }

    /// Records an observation, unless the same pair was already recorded.
    pub fn add(&mut self, entry: CmpEntry)
        requires
            old(self).wf(),
        ensures
            final(self).wf(),
            old(self).pairs().contains(pair_of(entry)) ==> final(self).pairs() == old(self).pairs(),
            !old(self).pairs().contains(pair_of(entry)) ==> final(self).pairs() == old(self).pairs().push(
                pair_of(entry),
            ),
    {
        let mut i: usize = 0;
        while i < self.log.len()
            invariant
                i <= self.log@.len(),
                old(self).wf(),
                self.log@ == old(self).log@,
                forall|j: int| 0 <= j < i ==> self.pairs()[j] != pair_of(entry),
            decreases self.log@.len() - i,
        {
            let same = bytes_eq(self.log[i].arg1.as_slice(), entry.arg1.as_slice()) && bytes_eq(
                self.log[i].arg2.as_slice(),
                entry.arg2.as_slice(),
            );
            assert(self.pairs()[i as int] == pair_of(self.log@[i as int]));
            if same {
                assert(old(self).pairs()[i as int] == pair_of(entry));
                assert(old(self).pairs().contains(pair_of(entry)));
                return;
            }
            i = i + 1;
        }
        let ghost before = self.log@;
        self.log.push(entry);
        assert(self.pairs() =~= pairs_of(before).push(pair_of(entry)));
        assert forall|a: int, b: int|
            0 <= a < self.pairs().len() && 0 <= b < self.pairs().len() && a != b implies self.pairs()[a]
            != self.pairs()[b] by {
            let n = pairs_of(before).len() as int;
            if a < n && b < n {
                assert(self.pairs()[a] == pairs_of(before)[a]);
                assert(self.pairs()[b] == pairs_of(before)[b]);
            } else if a < n {
                assert(self.pairs()[a] == pairs_of(before)[a]);
            } else if b < n {
                assert(self.pairs()[b] == pairs_of(before)[b]);
            }
        }
    }

    /// The observations kept, in the order first seen.
    pub fn entries(&self) -> (r: &[CmpEntry])
        ensures
            pairs_of(r@) == self.pairs(),
    {
        self.log.as_slice()
    }

    /// Whether nothing was recorded.
    pub fn is_empty(&self) -> (b: bool)
        ensures
            b == (self.pairs().len() == 0),
    {
        self.log.len() == 0
    }
}

impl Default for CmpLog {
    fn default() -> (l: Self)
        ensures
            l.wf(),
            l.pairs() == Seq::<(Seq<u8>, Seq<u8>)>::empty(),
    {
        CmpLog::new()
    }
}

// ───────────────────────── mutation model ─────────────────────────

/// `needle` occurs in `s` at `i`.
pub open spec fn bytes_at(s: Seq<u8>, needle: Seq<u8>, i: int) -> bool {
    0 <= i && i + needle.len() <= s.len() && s.subrange(i, i + needle.len()) == needle
}

/// The positions below `k` where `needle` occurs in `s`, in increasing order.
pub open spec fn positions_below(s: Seq<u8>, needle: Seq<u8>, k: int) -> Seq<int>
    decreases k,
{
    if k <= 0 {
        Seq::empty()
    } else if bytes_at(s, needle, k - 1) {
        positions_below(s, needle, k - 1).push(k - 1)
    } else {
        positions_below(s, needle, k - 1)
    }
}

/// Every position where `needle` occurs in `s`, in increasing order.
pub open spec fn positions(s: Seq<u8>, needle: Seq<u8>) -> Seq<int> {
    positions_below(s, needle, s.len() - needle.len() + 1)
}

/// The mutation a mutator over the pairs `ps` makes of `input`, given its
/// three random draws: `d1` picks the pair, `d2` (even or odd) the direction
/// (first operand replaced by the second, or the reverse), `d3` the position
/// among the occurrences of the operand replaced. The input comes back
/// unchanged when there are no pairs, the operand is empty, longer than the
/// input, or does not occur in it.
pub open spec fn operand_swap(
    ps: Seq<(Seq<u8>, Seq<u8>)>,
    input: Seq<u8>,
    d1: u32,
    d2: u32,
    d3: u32,
) -> Seq<u8> {
    if ps.len() == 0 {
        input
    } else {
        let e = ps[(d1 as int) % (ps.len() as int)];
        let (needle, repl) = if d2 % 2 == 0 { (e.0, e.1) } else { (e.1, e.0) };
        if needle.len() == 0 || needle.len() > input.len() {
            input
        } else {
            let ps2 = positions(input, needle);
            if ps2.len() == 0 {
                input
            } else {
                let pos = ps2[(d3 as int) % (ps2.len() as int)];
                input.subrange(0, pos) + repl + input.subrange(pos + needle.len(), input.len() as int)
            }
        }
    }
}

/// Whether two byte strings are equal.
fn bytes_eq(a: &[u8], b: &[u8]) -> (r: bool)
    ensures
        r == (a@ == b@),
{
    if a.len() != b.len() {
        return false;
    }
    let mut i: usize = 0;
    while i < a.len()
        invariant
            a@.len() == b@.len(),
            i <= a@.len(),
            forall|j: int| 0 <= j < i ==> a@[j] == b@[j],
        decreases a@.len() - i,
    {
        if a[i] != b[i] {
            return false;
        }
        i = i + 1;
    }
    assert(a@ =~= b@);
    true
}

/// Whether `needle` occurs in `s` at `i`.
fn bytes_at_exec(s: &[u8], needle: &[u8], i: usize) -> (r: bool)
    requires
        i + needle@.len() <= s@.len(),
    ensures
        r == bytes_at(s@, needle@, i as int),
{
    let n = s.len();
    let mut j: usize = 0;
    while j < needle.len()
        invariant
            n == s@.len(),
            i + needle@.len() <= s@.len(),
            j <= needle@.len(),
            forall|t: int| 0 <= t < j ==> s@[i + t] == needle@[t],
        decreases needle@.len() - j,
    {
        if s[i + j] != needle[j] {
            assert(s@.subrange(i as int, i + needle@.len())[j as int] != needle@[j as int]);
            return false;
        }
        j = j + 1;
    }
    assert(s@.subrange(i as int, i + needle@.len()) =~= needle@);
    true
}

/// The occurrences of `needle` in `s` (see [`positions`]).
fn find_positions(s: &[u8], needle: &[u8]) -> (r: Vec<usize>)
    requires
        0 < needle@.len() <= s@.len(),
    ensures
        r@.map_values(|p: usize| p as int) == positions(s@, needle@),
        forall|k: int| 0 <= k < r@.len() ==> #[trigger] r@[k] + needle@.len() <= s@.len(),
{
    let n = s.len();
    let last = n - needle.len();
    let mut r: Vec<usize> = Vec::new();
    let mut i: usize = 0;
    while i <= last
        invariant
            n == s@.len(),
            last == s@.len() - needle@.len(),
            0 < needle@.len() <= s@.len(),
            i <= last + 1,
            r@.map_values(|p: usize| p as int) == positions_below(s@, needle@, i as int),
            forall|k: int| 0 <= k < r@.len() ==> #[trigger] r@[k] < i,
        decreases last + 1 - i,
    {
        let ghost before = r@;
        if bytes_at_exec(s, needle, i) {
            r.push(i);
            assert(r@.map_values(|p: usize| p as int) =~= before.map_values(|p: usize| p as int).push(
                i as int,
            ));
        }
        i = i + 1;
    }
    r
}

/// `input` with `needle.len()` bytes at `pos` replaced by `repl`.
fn splice(input: &[u8], pos: usize, len: usize, repl: &[u8]) -> (r: Vec<u8>)
    requires
        pos + len <= input@.len(),
    ensures
        r@ == input@.subrange(0, pos as int) + repl@ + input@.subrange(
            pos + len,
            input@.len() as int,
        ),
{
    let n = input.len();
    let mut out: Vec<u8> = Vec::new();
    let mut i: usize = 0;
    while i < pos
        invariant
            n == input@.len(),
            i <= pos <= input@.len(),
            out@ == input@.subrange(0, i as int),
        decreases pos - i,
    {
        out.push(input[i]);
        assert(input@.subrange(0, i + 1) =~= input@.subrange(0, i as int).push(input@[i as int]));
        i = i + 1;
    }
    let mut j: usize = 0;
    while j < repl.len()
        invariant
            j <= repl@.len(),
            out@ == input@.subrange(0, pos as int) + repl@.subrange(0, j as int),
        decreases repl@.len() - j,
    {
        out.push(repl[j]);
        assert(repl@.subrange(0, j + 1) =~= repl@.subrange(0, j as int).push(repl@[j as int]));
        j = j + 1;
    }
    let mut k: usize = pos + len;
    while k < input.len()
        invariant
            pos + len <= k <= input@.len(),
            out@ == input@.subrange(0, pos as int) + repl@ + input@.subrange(pos + len, k as int),
        decreases input@.len() - k,
    {
        out.push(input[k]);
        assert(input@.subrange(pos + len, k + 1) =~= input@.subrange(pos + len, k as int).push(
            input@[k as int],
        ));
        k = k + 1;
    }
    assert(repl@.subrange(0, repl@.len() as int) =~= repl@);
    out
}

/// A copy of a byte string.
fn copy_bytes(a: &[u8]) -> (r: Vec<u8>)
    ensures
        r@ == a@,
{
    let mut r: Vec<u8> = Vec::new();
    let mut i: usize = 0;
    while i < a.len()
        invariant
            i <= a@.len(),
            r@ == a@.subrange(0, i as int),
        decreases a@.len() - i,
    {
        r.push(a[i]);
        assert(a@.subrange(0, i + 1) =~= a@.subrange(0, i as int).push(a@[i as int]));
        i = i + 1;
    }
    assert(a@.subrange(0, a@.len() as int) =~= a@);
    r
}

/// Mutator that performs input-to-state replacement using comparison data.
pub struct CmpLogMutator {
    log: CmpLog,
}

impl CmpLogMutator {
    /// A mutator over the pairs of `log`.
    pub fn new(log: CmpLog) -> (m: Self)
        ensures
            m.pairs() == log.pairs(),
    {
        CmpLogMutator { log }
    }

    /// The pairs the mutator draws from.
    pub closed spec fn pairs(&self) -> Seq<(Seq<u8>, Seq<u8>)> {
        self.log.pairs()
    }

    /// The mutator's name.
    pub fn name(&self) -> (s: &str)
        ensures
            s@ == "cmplog"@,
    {
        "cmplog"
    }

    /// The mutation of `input` for the given random draws (see
    /// [`operand_swap`]).
    pub fn mutate_with(&self, input: &[u8], d1: u32, d2: u32, d3: u32) -> (r: Vec<u8>)
        ensures
            r@ == operand_swap(self.pairs(), input@, d1, d2, d3),
    {
        let entries = self.log.entries();
        if entries.len() == 0 {
            return copy_bytes(input);
        }
        let idx = (d1 as usize) % entries.len();
        let entry = &entries[idx];
        assert(pairs_of(entries@)[idx as int] == pair_of(entries@[idx as int]));
        assert((d1 as int) % (entries@.len() as int) == idx as int);
        let (needle, replacement) = if d2 % 2 == 0 {
            (entry.arg1.as_slice(), entry.arg2.as_slice())
        } else {
            (entry.arg2.as_slice(), entry.arg1.as_slice())
        };
        if needle.len() == 0 || needle.len() > input.len() {
            return copy_bytes(input);
        }
        let positions = find_positions(input, needle);
        if positions.len() == 0 {
            return copy_bytes(input);
        }
        let k = (d3 as usize) % positions.len();
        assert((d3 as int) % (positions@.len() as int) == k as int);
        let pos = positions[k];
        assert(positions@.map_values(|p: usize| p as int)[k as int] == pos as int);
        splice(input, pos, needle.len(), replacement)
    }

    /// Replaces, at a random occurrence in `input`, one operand of a random
    /// pair by the other (the direction random too), drawing from `rng` as
    /// it goes; the input comes back unchanged when the log is empty or the
    /// chosen operand is empty, longer than the input, or absent from it.
    pub fn mutate(&self, input: &[u8], rng: &mut ThreadRng) -> (r: Vec<u8>)
        ensures
            exists|d1: u32, d2: u32, d3: u32| r@ == operand_swap(self.pairs(), input@, d1, d2, d3),
    {
        let entries = self.log.entries();
        if entries.len() == 0 {
            let r = copy_bytes(input);
            assert(r@ == operand_swap(self.pairs(), input@, 0, 0, 0));
            return r;
        }
        let d1 = next_u32(rng);
        let d2 = next_u32(rng);
        let idx = (d1 as usize) % entries.len();
        let entry = &entries[idx];
        let needle = if d2 % 2 == 0 {
            entry.arg1.as_slice()
        } else {
            entry.arg2.as_slice()
        };
        if needle.len() == 0 || needle.len() > input.len() {
            let r = self.mutate_with(input, d1, d2, 0);
            return r;
        }
        let positions = find_positions(input, needle);
        let d3 = if positions.len() == 0 {
            0
        } else {
            next_u32(rng)
        };
        self.mutate_with(input, d1, d2, d3)
    }
}


// ───────────────────────── hints from test output ─────────────────────────

/// What matching a regex over a text yields: `None` where the pattern is no
/// valid regex, else, for each successive non-overlapping match, the texts
/// of its groups 1 and 2 (`None` for a group that did not take part).
pub uninterp spec fn regex_group_pairs(pattern: Seq<char>, text: Seq<char>) -> Option<
    Seq<(Option<Seq<char>>, Option<Seq<char>>)>,
>;

/// The text of an optional group.
pub open spec fn group_view(g: Option<String>) -> Option<Seq<char>> {
    match g {
        Some(s) => Some(s@),
        None => None,
    }
}

/// Calls `regex::Regex::new` on `pattern`, then `Regex::captures_iter` on
/// `text`, and hands back groups 1 and 2 of each match as they come. The
/// result is a function of the two texts alone, named by [`regex_group_pairs`].
#[verifier::external_body]
fn group_pairs(pattern: &str, text: &str) -> (r: Option<Vec<(Option<String>, Option<String>)>>)
    ensures
        regex_group_pairs(pattern@, text@) == match r {
            Some(v) => Some(v@.map_values(|p: (Option<String>, Option<String>)| (group_view(p.0), group_view(p.1)))),
            None => None::<Seq<(Option<Seq<char>>, Option<Seq<char>>)>>,
        },
{
    let re = match regex::Regex::new(pattern) {
        Ok(re) => re,
        Err(_) => return None,
    };
    Some(
        re.captures_iter(text)
            .map(|caps| (caps.get(1).map(|m| m.as_str().to_string()), caps.get(2).map(|m| m.as_str().to_string())))
            .collect(),
    )
}

/// The matches in which both groups took part, as pairs of group texts.
pub open spec fn complete_pairs(ps: Seq<(Option<Seq<char>>, Option<Seq<char>>)>) -> Seq<(Seq<char>, Seq<char>)>
    decreases ps.len(),
{
    if ps.len() == 0 {
        Seq::empty()
    } else {
        complete_pairs(ps.drop_last()) + match ps.last() {
            (Some(a), Some(b)) => seq![(a, b)],
            _ => Seq::empty(),
        }
    }
}

/// The comparison pattern `expected <X> but got <Y>` / `expected <X>, got <Y>`.
pub const EXPECTED_GOT_PATTERN: &'static str = "expected\\s+(\\S+?)[\\s,]+(?:but\\s+)?got\\s+(\\S+)";

/// The comparison pattern of a failed `assert_eq`: ``left=`<X>`, right=`<Y>` ``.
pub const LEFT_RIGHT_PATTERN: &'static str = "left=`([^`]+)`.*right=`([^`]+)`";

/// The comparison pattern of a failed Python assertion: `AssertionError: <X> != <Y>`.
pub const ASSERTION_NE_PATTERN: &'static str = "AssertionError:\\s*(\\S+)\\s*!=\\s*(\\S+)";

/// The operand pairs of the hints, as UTF-8 bytes, in order.
pub open spec fn hint_pairs(ps: Seq<(Seq<char>, Seq<char>)>) -> Seq<(Seq<u8>, Seq<u8>)> {
    ps.map_values(|p: (Seq<char>, Seq<char>)| (vstd::utf8::encode_utf8(p.0), vstd::utf8::encode_utf8(p.1)))
}

/// The pairs a pattern yields over a text (nothing for an invalid pattern).
pub open spec fn pattern_hints(pattern: Seq<char>, text: Seq<char>) -> Seq<(Seq<u8>, Seq<u8>)> {
    match regex_group_pairs(pattern, text) {
        Some(ps) => hint_pairs(complete_pairs(ps)),
        None => Seq::empty(),
    }
}

/// A vector holding the bytes of `s`.
fn copy_slice(s: &[u8]) -> (r: Vec<u8>)
    ensures
        r@ == s@,
{
    let mut r: Vec<u8> = Vec::new();
    let mut i: usize = 0;
    while i < s.len()
        invariant
            i <= s@.len(),
            r@ == s@.take(i as int),
        decreases s@.len() - i,
    {
        r.push(s[i]);
        assert(s@.take(i + 1) =~= s@.take(i as int).push(s@[i as int]));
        i = i + 1;
    }
    assert(s@.take(s@.len() as int) =~= s@);
    r
}

/// Appends the hints one pattern yields over `output`.
fn push_pattern_hints(out: &mut Vec<CmpEntry>, pattern: &str, output: &str)
    ensures
        final(out)@.map_values(|e: CmpEntry| (e.arg1@, e.arg2@)) == old(out)@.map_values(
            |e: CmpEntry| (e.arg1@, e.arg2@),
        ) + pattern_hints(pattern@, output@),
{
    match group_pairs(pattern, output) {
        Some(ps) => {
            let ghost pv = ps@.map_values(|p: (Option<String>, Option<String>)| (group_view(p.0), group_view(p.1)));
            let ghost base = out@.map_values(|e: CmpEntry| (e.arg1@, e.arg2@));
            let mut i: usize = 0;
            assert(pv.take(0) =~= Seq::<(Option<Seq<char>>, Option<Seq<char>>)>::empty());
            assert(base + hint_pairs(complete_pairs(pv.take(0))) =~= base);
            while i < ps.len()
                invariant
                    i <= ps@.len(),
                    pv == ps@.map_values(|p: (Option<String>, Option<String>)| (group_view(p.0), group_view(p.1))),
                    out@.map_values(|e: CmpEntry| (e.arg1@, e.arg2@)) == base + hint_pairs(complete_pairs(pv.take(i as int))),
                decreases ps@.len() - i,
            {
                assert(pv.take(i + 1).drop_last() =~= pv.take(i as int));
                assert(pv.take(i + 1).last() == pv[i as int]);
                let ghost prev = out@.map_values(|e: CmpEntry| (e.arg1@, e.arg2@));
                let ghost cp = complete_pairs(pv.take(i as int));
                match (&ps[i].0, &ps[i].1) {
                    (Some(x), Some(y)) => {
                        let a = x.as_str().as_bytes();
                        let b = y.as_str().as_bytes();
                        let e = CmpEntry::new(copy_slice(a), copy_slice(b));
                        out.push(e);
                        assert(out@.map_values(|e: CmpEntry| (e.arg1@, e.arg2@)) =~= prev.push((a@, b@)));
                        assert(complete_pairs(pv.take(i + 1)) =~= cp.push((x@, y@)));
                        assert(hint_pairs(cp.push((x@, y@))) =~= hint_pairs(cp).push((a@, b@)));
                    },
                    _ => {
                        assert(complete_pairs(pv.take(i + 1)) =~= cp);
                    },
                }
                i = i + 1;
            }
            assert(pv.take(ps@.len() as int) =~= pv);
        },
        None => {
            assert(out@.map_values(|e: CmpEntry| (e.arg1@, e.arg2@)) =~= out@.map_values(
                |e: CmpEntry| (e.arg1@, e.arg2@),
            ) + Seq::<(Seq<u8>, Seq<u8>)>::empty());
        },
    }
}

/// Comparison hints read from test output: the operand pairs of
/// `expected X but got Y` (or `expected X, got Y`) messages, then those of
/// failed `assert_eq` messages (``left=`X` ... right=`Y` ``), then those of
/// `AssertionError: X != Y` messages, each as bytes.
pub fn parse_cmp_hints_from_output(output: &str) -> (hints: Vec<CmpEntry>)
    ensures
        hints@.map_values(|e: CmpEntry| (e.arg1@, e.arg2@)) == pattern_hints(
            EXPECTED_GOT_PATTERN@,
            output@,
        ) + pattern_hints(LEFT_RIGHT_PATTERN@, output@) + pattern_hints(ASSERTION_NE_PATTERN@, output@),
{
    let mut hints: Vec<CmpEntry> = Vec::new();
    assert(hints@.map_values(|e: CmpEntry| (e.arg1@, e.arg2@)) =~= Seq::<(Seq<u8>, Seq<u8>)>::empty());
    push_pattern_hints(&mut hints, EXPECTED_GOT_PATTERN, output);
    push_pattern_hints(&mut hints, LEFT_RIGHT_PATTERN, output);
    push_pattern_hints(&mut hints, ASSERTION_NE_PATTERN, output);
    assert(Seq::<(Seq<u8>, Seq<u8>)>::empty() + pattern_hints(EXPECTED_GOT_PATTERN@, output@)
        =~= pattern_hints(EXPECTED_GOT_PATTERN@, output@));
    hints
}

} // verus!
