//! Character-level text model and the verified string primitives that the
//! scanners and parsers of this crate are built from.
use vstd::prelude::*;

verus! {

broadcast use vstd::string::group_string_axioms;

// ───────────────────────── model ─────────────────────────

/// Unicode `White_Space` property, as `char::is_whitespace` uses it.
pub open spec fn is_ws(c: char) -> bool {
    let u = c as u32;
    ||| 9 <= u <= 13
    ||| u == 32
    ||| u == 0x85
    ||| u == 0xA0
    ||| u == 0x1680
    ||| 0x2000 <= u <= 0x200A
    ||| u == 0x2028
    ||| u == 0x2029
    ||| u == 0x202F
    ||| u == 0x205F
    ||| u == 0x3000
}

/// ASCII decimal digit.
pub open spec fn is_digit(c: char) -> bool {
    '0' <= c && c <= '9'
}

/// `s` without its leading whitespace.
pub open spec fn trim_start(s: Seq<char>) -> Seq<char>
    decreases s.len(),
{
    if s.len() > 0 && is_ws(s[0]) {
        trim_start(s.drop_first())
    } else {
        s
    }
}

/// `s` without its trailing whitespace.
pub open spec fn trim_end(s: Seq<char>) -> Seq<char>
    decreases s.len(),
{
    if s.len() > 0 && is_ws(s.last()) {
        trim_end(s.drop_last())
    } else {
        s
    }
}

/// `s` without leading and trailing whitespace (`str::trim`).
pub open spec fn trim(s: Seq<char>) -> Seq<char> {
    trim_end(trim_start(s))
}

/// `p` occurs in `s` starting at index `i`.
pub open spec fn occurs_at(s: Seq<char>, p: Seq<char>, i: int) -> bool {
    0 <= i && i + p.len() <= s.len() && s.subrange(i, i + p.len()) == p
}

/// `s` contains `p` as a contiguous piece (`str::contains`).
pub open spec fn contains(s: Seq<char>, p: Seq<char>) -> bool {
    exists|i: int| occurs_at(s, p, i)
}

/// `s` starts with `p`.
pub open spec fn starts_with(s: Seq<char>, p: Seq<char>) -> bool {
    occurs_at(s, p, 0)
}

/// `s` ends with `p`.
pub open spec fn ends_with(s: Seq<char>, p: Seq<char>) -> bool {
    p.len() <= s.len() && occurs_at(s, p, s.len() - p.len())
}

/// First index at or after `k` where `p` occurs in `s`.
pub open spec fn find_from(s: Seq<char>, p: Seq<char>, k: int) -> Option<int>
    decreases s.len() - k,
{
    if k < 0 || k + p.len() > s.len() {
        None
    } else if occurs_at(s, p, k) {
        Some(k)
    } else if k >= s.len() {
        None
    } else {
        find_from(s, p, k + 1)
    }
}

/// First index where `p` occurs in `s` (`str::find`).
pub open spec fn find(s: Seq<char>, p: Seq<char>) -> Option<int> {
    find_from(s, p, 0)
}

/// Last index where `p` occurs in `s` (`str::rfind`), searching down from `k`.
pub open spec fn rfind_from(s: Seq<char>, p: Seq<char>, k: int) -> Option<int>
    decreases k + 1,
{
    if k < 0 {
        None
    } else if occurs_at(s, p, k) {
        Some(k)
    } else {
        rfind_from(s, p, k - 1)
    }
}

/// Last index where `p` occurs in `s` (`str::rfind`).
pub open spec fn rfind(s: Seq<char>, p: Seq<char>) -> Option<int> {
    rfind_from(s, p, s.len() - p.len())
}

/// The part of `s` before the first `c`, or all of `s` (`split(c).next()`).
pub open spec fn before_char(s: Seq<char>, c: char) -> Seq<char> {
    match find(s, seq![c]) {
        Some(i) => s.subrange(0, i),
        None => s,
    }
}

/// A line without one trailing carriage return.
pub open spec fn strip_cr(t: Seq<char>) -> Seq<char> {
    if t.len() > 0 && t.last() == '\r' {
        t.drop_last()
    } else {
        t
    }
}

/// The lines of `s`, as `str::lines` yields them: split at `\n`, a `\r`
/// directly before the `\n` removed, and no empty line after a final `\n`.
pub open spec fn lines(s: Seq<char>) -> Seq<Seq<char>>
    decreases s.len(),
{
    if s.len() == 0 {
        Seq::empty()
    } else {
        match find(s, seq!['\n']) {
            Some(k) => if 0 <= k < s.len() {
                seq![strip_cr(s.subrange(0, k))] + lines(s.subrange(k + 1, s.len() as int))
            } else {
                seq![s]
            },
            None => seq![s],
        }
    }
}

/// Decimal digit character of `d` (`d < 10`).
pub open spec fn digit_char(d: nat) -> char {
    ((48 + d) as u32) as char
}

/// Decimal rendering of `n`, without leading zeros.
pub open spec fn decimal(n: nat) -> Seq<char>
    decreases n,
{
    if n < 10 {
        seq![digit_char(n)]
    } else {
        decimal(n / 10).push(digit_char(n % 10))
    }
}

/// Value of a nonempty run of decimal digits.
pub open spec fn digits_value(s: Seq<char>) -> nat
    decreases s.len(),
{
    if s.len() == 0 {
        0
    } else {
        digits_value(s.drop_last()) * 10 + ((s.last() as u32) - 48) as nat
    }
}

/// All characters are ASCII digits.
pub open spec fn all_digits(s: Seq<char>) -> bool {
    forall|i: int| 0 <= i < s.len() ==> is_digit(#[trigger] s[i])
}

/// The longest prefix of `s` made of ASCII digits.
pub open spec fn digit_prefix(s: Seq<char>) -> Seq<char>
    decreases s.len(),
{
    if s.len() > 0 && is_digit(s[0]) {
        seq![s[0]] + digit_prefix(s.drop_first())
    } else {
        Seq::empty()
    }
}

/// `str::parse::<u32>`: an optional `+`, then one or more ASCII digits whose
/// value fits in a `u32`.
pub open spec fn parse_u32(s: Seq<char>) -> Option<u32> {
    let d = if s.len() > 0 && s[0] == '+' { s.drop_first() } else { s };
    if d.len() > 0 && all_digits(d) && digits_value(d) <= u32::MAX {
        Some(digits_value(d) as u32)
    } else {
        None
    }
}


/// Index of the first whitespace character of `s` at or after `k`, or `s.len()`.
pub open spec fn first_ws_from(s: Seq<char>, k: int) -> int
    decreases s.len() - k,
{
    if k < 0 || k >= s.len() {
        s.len() as int
    } else if is_ws(s[k]) {
        k
    } else {
        first_ws_from(s, k + 1)
    }
}

/// The whitespace-separated tokens of `s` (`str::split_whitespace`).
pub open spec fn split_ws(s: Seq<char>) -> Seq<Seq<char>>
    decreases s.len(),
{
    let t = trim_start(s);
    if t.len() == 0 {
        Seq::empty()
    } else {
        let k = first_ws_from(t, 1);
        if 1 <= k <= t.len() && t.len() <= s.len() {
            seq![t.subrange(0, k)] + split_ws(t.subrange(k, t.len() as int))
        } else {
            Seq::empty()
        }
    }
}

/// Whether `c` is one of `(`, `)` or `,`.
pub open spec fn is_paren_comma(c: char) -> bool {
    c == '(' || c == ')' || c == ','
}

/// `s` without leading and trailing `(`, `)` and `,` characters.
pub open spec fn trim_parens(s: Seq<char>) -> Seq<char>
    decreases s.len(),
{
    if s.len() > 0 && is_paren_comma(s[0]) {
        trim_parens(s.drop_first())
    } else if s.len() > 0 && is_paren_comma(s.last()) {
        trim_parens(s.drop_last())
    } else {
        s
    }
}

// ───────────────────────── lemmas ─────────────────────────

/// A found index is an occurrence inside `s`, and nothing occurs earlier.
pub proof fn lemma_find_from(s: Seq<char>, p: Seq<char>, k: int)
    requires
        0 <= k,
    ensures
        match find_from(s, p, k) {
            Some(i) => k <= i && occurs_at(s, p, i) && forall|j: int|
                k <= j < i ==> !occurs_at(s, p, j),
            None => forall|j: int| k <= j ==> !occurs_at(s, p, j),
        },
    decreases s.len() - k,
{
    if k + p.len() > s.len() {
    } else if occurs_at(s, p, k) {
    } else if k >= s.len() {
        assert(s.subrange(k, k + p.len()) =~= p);
    } else {
        lemma_find_from(s, p, k + 1);
    }
}

/// A found last index is an occurrence inside `s`.
pub proof fn lemma_rfind_from(s: Seq<char>, p: Seq<char>, k: int)
    ensures
        match rfind_from(s, p, k) {
            Some(i) => 0 <= i <= k && occurs_at(s, p, i),
            None => true,
        },
    decreases k + 1,
{
    if k >= 0 && !occurs_at(s, p, k) {
        lemma_rfind_from(s, p, k - 1);
    }
}

/// `find` gives the first occurrence, or `None` when there is none.
pub proof fn lemma_find(s: Seq<char>, p: Seq<char>)
    ensures
        match find(s, p) {
            Some(i) => 0 <= i && i + p.len() <= s.len() && occurs_at(s, p, i) && forall|j: int|
                0 <= j < i ==> !occurs_at(s, p, j),
            None => !contains(s, p),
        },
{
    lemma_find_from(s, p, 0);
}


/// Trimming never lengthens a sequence.
pub proof fn lemma_trim_start_len(s: Seq<char>)
    ensures
        trim_start(s).len() <= s.len(),
        trim_start(s).len() > 0 ==> !is_ws(trim_start(s)[0]),
    decreases s.len(),
{
    if s.len() > 0 && is_ws(s[0]) {
        lemma_trim_start_len(s.drop_first());
    }
}

/// `first_ws_from` stays within bounds.
pub proof fn lemma_first_ws_from(s: Seq<char>, k: int)
    requires
        0 <= k <= s.len(),
    ensures
        k <= first_ws_from(s, k) <= s.len(),
        forall|j: int| k <= j < first_ws_from(s, k) ==> !is_ws(s[j]),
        first_ws_from(s, k) < s.len() ==> is_ws(s[first_ws_from(s, k)]),
    decreases s.len() - k,
{
    if k < s.len() && !is_ws(s[k]) {
        lemma_first_ws_from(s, k + 1);
    }
}

// ───────────────────────── exec primitives ─────────────────────────

/// The characters of `s`, in order.
pub fn chars_of(s: &str) -> (v: Vec<char>)
    ensures
        v@ == s@,
{
    let mut v: Vec<char> = Vec::new();
    for c in it: s.chars()
        invariant
            v@ == it.seq().take(it.index()),
    {
        v.push(c);
    }
    v
}

/// Appends one character to a `String` (`String::push`).
#[verifier::external_body]
pub(crate) fn push_char(s: &mut String, c: char)
    ensures
        final(s)@ == old(s)@.push(c),
{
    s.push(c);
}

/// Appends the characters of `s` to `out` (`String::push_str`).
pub fn append_str(out: &mut String, s: &str)
    ensures
        final(out)@ == old(out)@ + s@,
{
    let v = chars_of(s);
    let mut i: usize = 0;
    while i < v.len()
        invariant
            i <= v@.len(),
            v@ == s@,
            out@ == old(out)@ + v@.take(i as int),
        decreases v@.len() - i,
    {
        push_char(out, v[i]);
        assert(v@.take(i + 1) =~= v@.take(i as int).push(v@[i as int]));
        assert(out@ =~= old(out)@ + v@.take(i + 1));
        i = i + 1;
    }
    assert(v@.take(v@.len() as int) =~= v@);
}

/// A `String` holding exactly the characters of `v`.
pub fn string_of(v: &[char]) -> (s: String)
    ensures
        s@ == v@,
{
    let mut s = String::new();
    let mut i: usize = 0;
    while i < v.len()
        invariant
            i <= v@.len(),
            s@ == v@.take(i as int),
        decreases v@.len() - i,
    {
        push_char(&mut s, v[i]);
        assert(v@.take(i + 1) =~= v@.take(i as int).push(v@[i as int]));
        i = i + 1;
    }
    assert(v@.take(v@.len() as int) =~= v@);
    s
}

/// Copy of `v[a..b]`.
pub fn slice_chars(v: &[char], a: usize, b: usize) -> (r: Vec<char>)
    requires
        a <= b <= v@.len(),
    ensures
        r@ == v@.subrange(a as int, b as int),
{
    let mut r: Vec<char> = Vec::new();
    let mut i = a;
    while i < b
        invariant
            a <= i <= b <= v@.len(),
            r@ == v@.subrange(a as int, i as int),
        decreases b - i,
    {
        r.push(v[i]);
        assert(v@.subrange(a as int, i + 1) =~= v@.subrange(a as int, i as int).push(v@[i as int]));
        i = i + 1;
    }
    r
}

/// `char::is_whitespace`.
pub fn is_whitespace(c: char) -> (b: bool)
    ensures
        b == is_ws(c),
{
    let u = c as u32;
    (9 <= u && u <= 13) || u == 32 || u == 0x85 || u == 0xA0 || u == 0x1680 || (0x2000 <= u && u
        <= 0x200A) || u == 0x2028 || u == 0x2029 || u == 0x202F || u == 0x205F || u == 0x3000
}

/// `char::is_ascii_digit`.
pub fn is_ascii_digit(c: char) -> (b: bool)
    ensures
        b == is_digit(c),
{
    '0' <= c && c <= '9'
}

/// Index of the first non-whitespace character of `v[lo..hi]`, and the end
/// of the last one: `v[a..b]` is `v[lo..hi]` trimmed.
pub fn trim_bounds(v: &[char], lo: usize, hi: usize) -> (r: (usize, usize))
    requires
        lo <= hi <= v@.len(),
    ensures
        lo <= r.0 <= r.1 <= hi,
        v@.subrange(r.0 as int, r.1 as int) == trim(v@.subrange(lo as int, hi as int)),
{
    let mut a = lo;
    while a < hi && is_whitespace(v[a])
        invariant
            lo <= a <= hi <= v@.len(),
            trim_start(v@.subrange(lo as int, hi as int)) == trim_start(
                v@.subrange(a as int, hi as int),
            ),
        decreases hi - a,
    {
        assert(v@.subrange(a as int, hi as int).drop_first() =~= v@.subrange(a + 1, hi as int));
        a = a + 1;
    }
    let mut b = hi;
    while b > a && is_whitespace(v[b - 1])
        invariant
            lo <= a <= b <= hi <= v@.len(),
            trim_end(v@.subrange(a as int, hi as int)) == trim_end(v@.subrange(a as int, b as int)),
        decreases b - a,
    {
        assert(v@.subrange(a as int, b as int).drop_last() =~= v@.subrange(a as int, b - 1));
        b = b - 1;
    }
    (a, b)
}

/// `str::trim` on a character slice.
pub fn trim_chars(v: &[char]) -> (r: Vec<char>)
    ensures
        r@ == trim(v@),
{
    let (a, b) = trim_bounds(v, 0, v.len());
    assert(v@.subrange(0, v@.len() as int) =~= v@);
    slice_chars(v, a, b)
}

/// Whether `p` occurs in `s` at index `i`.
pub fn occurs_at_exec(s: &[char], p: &[char], i: usize) -> (b: bool)
    ensures
        b == occurs_at(s@, p@, i as int),
{
    if i > s.len() || p.len() > s.len() - i {
        return false;
    }
    let mut j: usize = 0;
    while j < p.len()
        invariant
            i + p@.len() <= s@.len(),
            s@.len() == s.len(),
            j <= p@.len(),
            forall|t: int| 0 <= t < j ==> s@[i + t] == p@[t],
        decreases p@.len() - j,
    {
        if s[i + j] != p[j] {
            assert(s@.subrange(i as int, i + p@.len())[j as int] != p@[j as int]);
            return false;
        }
        j = j + 1;
    }
    assert(s@.subrange(i as int, i + p@.len()) =~= p@);
    true
}

/// `str::find` on character slices.
pub fn find_exec(s: &[char], p: &[char]) -> (r: Option<usize>)
    ensures
        match r {
            Some(i) => find(s@, p@) == Some(i as int),
            None => find(s@, p@) is None,
        },
{
    if p.len() > s.len() {
        return None;
    }
    let last = s.len() - p.len();
    let mut k: usize = 0;
    loop
        invariant
            p@.len() <= s@.len(),
            last == s@.len() - p@.len(),
            k <= last,
            find(s@, p@) == find_from(s@, p@, k as int),
        decreases last - k,
    {
        if occurs_at_exec(s, p, k) {
            return Some(k);
        }
        if k == last {
            assert(find_from(s@, p@, k + 1) is None);
            return None;
        }
        k = k + 1;
    }
}

/// `str::rfind` on character slices.
pub fn rfind_exec(s: &[char], p: &[char]) -> (r: Option<usize>)
    ensures
        match r {
            Some(i) => rfind(s@, p@) == Some(i as int),
            None => rfind(s@, p@) is None,
        },
{
    if p.len() > s.len() {
        return None;
    }
    let mut k: usize = s.len() - p.len();
    loop
        invariant
            p@.len() <= s@.len(),
            k <= s@.len() - p@.len(),
            rfind(s@, p@) == rfind_from(s@, p@, k as int),
        decreases k,
    {
        if occurs_at_exec(s, p, k) {
            return Some(k);
        }
        if k == 0 {
            assert(rfind_from(s@, p@, -1) is None);
            return None;
        }
        k = k - 1;
    }
}

/// `str::contains` on character slices.
pub fn contains_exec(s: &[char], p: &[char]) -> (b: bool)
    ensures
        b == contains(s@, p@),
{
    proof {
        lemma_find(s@, p@);
    }
    find_exec(s, p).is_some()
}

/// `str::contains` with a `&str` pattern.
pub fn contains_str(s: &[char], p: &str) -> (b: bool)
    ensures
        b == contains(s@, p@),
{
    let pv = chars_of(p);
    contains_exec(s, &pv)
}

/// `str::starts_with` with a `&str` pattern.
pub fn starts_with_str(s: &[char], p: &str) -> (b: bool)
    ensures
        b == starts_with(s@, p@),
{
    let pv = chars_of(p);
    occurs_at_exec(s, &pv, 0)
}

/// Whether `s` equals `p`.
pub fn eq_str(s: &[char], p: &str) -> (b: bool)
    ensures
        b == (s@ == p@),
{
    let pv = chars_of(p);
    if s.len() != pv.len() {
        return false;
    }
    let b = occurs_at_exec(s, &pv, 0);
    assert(b ==> s@.subrange(0, pv@.len() as int) =~= s@);
    assert(s@ == pv@ ==> s@.subrange(0, pv@.len() as int) =~= s@);
    b
}

/// Splits `v` into its lines, as `str::lines` does.
pub fn lines_of(v: &[char]) -> (r: Vec<Vec<char>>)
    ensures
        r@.map_values(|l: Vec<char>| l@) == lines(v@),
{
    let mut r: Vec<Vec<char>> = Vec::new();
    let mut start: usize = 0;
    let mut nl: Vec<char> = Vec::new();
    nl.push('\n');
    assert(nl@ =~= seq!['\n']);
    assert(v@.subrange(0, v@.len() as int) =~= v@);
    assert(r@.map_values(|l: Vec<char>| l@) =~= Seq::<Seq<char>>::empty());
    assert(Seq::<Seq<char>>::empty() + lines(v@) =~= lines(v@));
    while start < v.len()
        invariant
            start <= v@.len(),
            nl@ == seq!['\n'],
            r@.map_values(|l: Vec<char>| l@) + lines(v@.subrange(start as int, v@.len() as int))
                == lines(v@),
        decreases v@.len() - start,
    {
        let rest = slice_chars(v, start, v.len());
        let f = find_exec(&rest, &nl);
        proof {
            lemma_find(rest@, seq!['\n']);
            assert(nl@ =~= seq!['\n']);
        }
        match f {
            Some(k) => {
                let mut line = slice_chars(&rest, 0, k);
                if line.len() > 0 && line[line.len() - 1] == '\r' {
                    line.pop();
                }
                proof {
                    let s2 = v@.subrange(start + k + 1, v@.len() as int);
                    assert(rest@.subrange(k + 1, rest@.len() as int) =~= s2);
                    assert(lines(rest@) == seq![line@] + lines(s2));
                    assert(r@.push(line).map_values(|l: Vec<char>| l@) =~= r@.map_values(
                        |l: Vec<char>| l@,
                    ).push(line@));
                    assert(r@.map_values(|l: Vec<char>| l@).push(line@) + lines(s2) =~= r@.map_values(
                        |l: Vec<char>| l@,
                    ) + (seq![line@] + lines(s2)));
                }
                r.push(line);
                start = start + k + 1;
            },
            None => {
                proof {
                    assert(lines(rest@) == seq![rest@]);
                    assert(r@.push(rest).map_values(|l: Vec<char>| l@) =~= r@.map_values(
                        |l: Vec<char>| l@,
                    ).push(rest@));
                    assert(v@.subrange(v@.len() as int, v@.len() as int) =~= Seq::<char>::empty());
                    assert(r@.map_values(|l: Vec<char>| l@) + seq![rest@] =~= r@.map_values(
                        |l: Vec<char>| l@,
                    ).push(rest@));
                }
                r.push(rest);
                start = v.len();
            },
        }
    }
    proof {
        assert(v@.subrange(start as int, v@.len() as int) =~= Seq::<char>::empty());
        assert(r@.map_values(|l: Vec<char>| l@) + Seq::<Seq<char>>::empty() =~= r@.map_values(
            |l: Vec<char>| l@,
        ));
    }
    r
}


/// `str::split_whitespace` on a character slice.
pub fn split_whitespace_of(v: &[char]) -> (r: Vec<Vec<char>>)
    ensures
        r@.map_values(|t: Vec<char>| t@) == split_ws(v@),
{
    let mut r: Vec<Vec<char>> = Vec::new();
    let mut pos: usize = 0;
    assert(v@.subrange(0, v@.len() as int) =~= v@);
    assert(r@.map_values(|t: Vec<char>| t@) + split_ws(v@) =~= split_ws(v@));
    while pos < v.len()
        invariant
            pos <= v@.len(),
            r@.map_values(|t: Vec<char>| t@) + split_ws(v@.subrange(pos as int, v@.len() as int))
                == split_ws(v@),
        decreases v@.len() - pos,
    {
        let ghost rest = v@.subrange(pos as int, v@.len() as int);
        let mut a = pos;
        while a < v.len() && is_whitespace(v[a])
            invariant
                pos <= a <= v@.len(),
                rest == v@.subrange(pos as int, v@.len() as int),
                trim_start(rest) == trim_start(v@.subrange(a as int, v@.len() as int)),
            decreases v@.len() - a,
        {
            assert(v@.subrange(a as int, v@.len() as int).drop_first() =~= v@.subrange(
                a + 1,
                v@.len() as int,
            ));
            a = a + 1;
        }
        let ghost t = v@.subrange(a as int, v@.len() as int);
        if a == v.len() {
            assert(t =~= Seq::<char>::empty());
            assert(trim_start(t) == t);
            assert(split_ws(rest) == Seq::<Seq<char>>::empty());
            pos = a;
            assert(v@.subrange(pos as int, v@.len() as int) =~= Seq::<char>::empty());
            assert(split_ws(Seq::<char>::empty()) == Seq::<Seq<char>>::empty());
        } else {
            assert(trim_start(t) == t);
            let mut b = a + 1;
            while b < v.len() && !is_whitespace(v[b])
                invariant
                    a < b <= v@.len(),
                    t == v@.subrange(a as int, v@.len() as int),
                    first_ws_from(t, 1) == first_ws_from(t, (b - a) as int),
                decreases v@.len() - b,
            {
                b = b + 1;
            }
            assert(first_ws_from(t, (b - a) as int) == (b - a) as int);
            proof {
                lemma_trim_start_len(rest);
            }
            let tok = slice_chars(v, a, b);
            proof {
                assert(t.subrange(0, (b - a) as int) =~= tok@);
                assert(t.subrange((b - a) as int, t.len() as int) =~= v@.subrange(
                    b as int,
                    v@.len() as int,
                ));
                assert(split_ws(rest) == seq![tok@] + split_ws(v@.subrange(b as int, v@.len() as int)));
                assert(r@.push(tok).map_values(|t: Vec<char>| t@) =~= r@.map_values(
                    |t: Vec<char>| t@,
                ).push(tok@));
                assert(r@.map_values(|t: Vec<char>| t@).push(tok@) + split_ws(
                    v@.subrange(b as int, v@.len() as int),
                ) =~= r@.map_values(|t: Vec<char>| t@) + (seq![tok@] + split_ws(
                    v@.subrange(b as int, v@.len() as int),
                )));
            }
            r.push(tok);
            pos = b;
        }
    }
    proof {
        assert(v@.subrange(pos as int, v@.len() as int) =~= Seq::<char>::empty());
        assert(trim_start(Seq::<char>::empty()) == Seq::<char>::empty());
        assert(r@.map_values(|t: Vec<char>| t@) + Seq::<Seq<char>>::empty() =~= r@.map_values(
            |t: Vec<char>| t@,
        ));
    }
    r
}

/// Bounds of `v[lo..hi]` with leading and trailing `(`, `)`, `,` removed.
pub fn trim_parens_bounds(v: &[char], lo: usize, hi: usize) -> (r: (usize, usize))
    requires
        lo <= hi <= v@.len(),
    ensures
        lo <= r.0 <= r.1 <= hi,
        v@.subrange(r.0 as int, r.1 as int) == trim_parens(v@.subrange(lo as int, hi as int)),
{
    let mut a = lo;
    let mut b = hi;
    while a < b && (v[a] == '(' || v[a] == ')' || v[a] == ',' || v[b - 1] == '(' || v[b - 1] == ')'
        || v[b - 1] == ',')
        invariant
            lo <= a <= b <= hi <= v@.len(),
            trim_parens(v@.subrange(lo as int, hi as int)) == trim_parens(
                v@.subrange(a as int, b as int),
            ),
        decreases b - a,
    {
        if v[a] == '(' || v[a] == ')' || v[a] == ',' {
            assert(v@.subrange(a as int, b as int).drop_first() =~= v@.subrange(a + 1, b as int));
            a = a + 1;
        } else {
            assert(v@.subrange(a as int, b as int).drop_last() =~= v@.subrange(a as int, b - 1));
            b = b - 1;
        }
    }
    (a, b)
}

/// Length of the run of ASCII digits at the start of `v[lo..]`.
pub fn digit_prefix_len(v: &[char], lo: usize) -> (n: usize)
    requires
        lo <= v@.len(),
    ensures
        lo + n <= v@.len(),
        v@.subrange(lo as int, lo + n) == digit_prefix(v@.subrange(lo as int, v@.len() as int)),
{
    let mut e = lo;
    while e < v.len() && is_ascii_digit(v[e])
        invariant
            lo <= e <= v@.len(),
            digit_prefix(v@.subrange(lo as int, v@.len() as int)) == v@.subrange(lo as int, e as int)
                + digit_prefix(v@.subrange(e as int, v@.len() as int)),
        decreases v@.len() - e,
    {
        assert(v@.subrange(e as int, v@.len() as int).drop_first() =~= v@.subrange(
            e + 1,
            v@.len() as int,
        ));
        assert(v@.subrange(lo as int, e + 1) =~= v@.subrange(lo as int, e as int) + seq![v@[e as int]]);
        e = e + 1;
    }
    assert(v@.subrange(lo as int, e as int) + Seq::<char>::empty() =~= v@.subrange(lo as int, e as int));
    e - lo
}


/// A two-character pattern.
pub fn pair(a: char, b: char) -> (v: Vec<char>)
    ensures
        v@ == seq![a, b],
{
    let mut v: Vec<char> = Vec::new();
    v.push(a);
    v.push(b);
    assert(v@ =~= seq![a, b]);
    v
}

/// Index of the first `c` in `v` (`str::find` with a `char`).
pub fn find_char(v: &[char], c: char) -> (r: Option<usize>)
    ensures
        match r {
            Some(i) => find(v@, seq![c]) == Some(i as int),
            None => find(v@, seq![c]) is None,
        },
{
    let mut p: Vec<char> = Vec::new();
    p.push(c);
    assert(p@ =~= seq![c]);
    find_exec(v, &p)
}

/// The part of `v` before the first `c`, or all of `v` (`split(c).next()`).
pub fn before_char_exec(v: &[char], c: char) -> (r: Vec<char>)
    ensures
        r@ == before_char(v@, c),
{
    let f = find_char(v, c);
    proof {
        lemma_find(v@, seq![c]);
    }
    match f {
        Some(i) => slice_chars(v, 0, i),
        None => {
            assert(v@.subrange(0, v@.len() as int) =~= v@);
            slice_chars(v, 0, v.len())
        },
    }
}

/// Appends the characters of `s` to `out`.
pub fn push_str(out: &mut Vec<char>, s: &str)
    ensures
        final(out)@ == old(out)@ + s@,
{
    let sv = chars_of(s);
    push_all(out, &sv);
}

/// Appends the characters of `s` to `out`.
pub fn push_all(out: &mut Vec<char>, s: &[char])
    ensures
        final(out)@ == old(out)@ + s@,
{
    let mut i: usize = 0;
    while i < s.len()
        invariant
            i <= s@.len(),
            out@ == old(out)@ + s@.take(i as int),
        decreases s@.len() - i,
    {
        out.push(s[i]);
        assert(s@.take(i + 1) =~= s@.take(i as int).push(s@[i as int]));
        assert(out@ =~= old(out)@ + s@.take(i + 1));
        i = i + 1;
    }
    assert(s@.take(s@.len() as int) =~= s@);
}


/// Views of a list of strings.
pub open spec fn views(v: Seq<String>) -> Seq<Seq<char>> {
    v.map_values(|s: String| s@)
}

/// Views of a list of string slices.
pub open spec fn str_views(v: Seq<&str>) -> Seq<Seq<char>> {
    v.map_values(|s: &str| s@)
}

/// Owned copies of a list of string literals.
pub fn strings_of(lits: &[&str]) -> (r: Vec<String>)
    ensures
        views(r@) == str_views(lits@),
{
    let mut r: Vec<String> = Vec::new();
    let mut i: usize = 0;
    while i < lits.len()
        invariant
            i <= lits@.len(),
            views(r@) == str_views(lits@.take(i as int)),
        decreases lits@.len() - i,
    {
        let ghost prev = r@;
        let item = String::from_str(lits[i]);
        assert(item@ == lits@[i as int]@);
        r.push(item);
        assert(lits@.take(i + 1) =~= lits@.take(i as int).push(lits@[i as int]));
        assert(r@ =~= prev.push(item));
        assert(views(r@) =~= views(prev).push(item@));
        assert(str_views(lits@.take(i + 1)) =~= str_views(lits@.take(i as int)).push(lits@[i as int]@));
        i = i + 1;
    }
    assert(lits@.take(lits@.len() as int) =~= lits@);
    r
}

/// Whether some string of `pats` occurs inside `name`.
pub open spec fn contains_any(name: Seq<char>, pats: Seq<Seq<char>>) -> bool {
    exists|i: int| 0 <= i < pats.len() && contains(name, #[trigger] pats[i])
}

/// Whether some string of `pats` occurs inside `name`.
pub fn contains_any_exec(name: &[char], pats: &[String]) -> (b: bool)
    ensures
        b == contains_any(name@, views(pats@)),
{
    let mut i: usize = 0;
    while i < pats.len()
        invariant
            i <= pats@.len(),
            forall|j: int| 0 <= j < i ==> !contains(name@, #[trigger] views(pats@)[j]),
        decreases pats@.len() - i,
    {
        if contains_str(name, pats[i].as_str()) {
            assert(views(pats@)[i as int] == pats@[i as int]@);
            return true;
        }
        i = i + 1;
    }
    false
}

/// Whether some literal of `pats` occurs inside `name`.
pub fn contains_any_str(name: &[char], pats: &[&str]) -> (b: bool)
    ensures
        b == contains_any(name@, str_views(pats@)),
{
    let mut i: usize = 0;
    while i < pats.len()
        invariant
            i <= pats@.len(),
            forall|j: int| 0 <= j < i ==> !contains(name@, #[trigger] str_views(pats@)[j]),
        decreases pats@.len() - i,
    {
        if contains_str(name, pats[i]) {
            assert(str_views(pats@)[i as int] == pats@[i as int]@);
            return true;
        }
        i = i + 1;
    }
    false
}


/// `str::to_lowercase` result on `s` (full Unicode lower-casing).
pub uninterp spec fn unicode_lowercase(s: Seq<char>) -> Seq<char>;

/// Lower-cases a string: calls `str::to_lowercase`, whose result is a function
/// of the input alone, named by `unicode_lowercase`.
#[verifier::external_body]
pub(crate) fn to_lowercase(s: &str) -> (r: String)
    ensures
        r@ == unicode_lowercase(s@),
{
    s.to_lowercase()
}

/// Lower-cases a character slice (see [`to_lowercase`]).
pub fn lowercase_chars(v: &[char]) -> (r: Vec<char>)
    ensures
        r@ == unicode_lowercase(v@),
{
    let s = string_of(v);
    let l = to_lowercase(s.as_str());
    chars_of(l.as_str())
}

/// Appends the decimal rendering of `n` to `out`.
pub fn push_decimal(out: &mut Vec<char>, n: u64)
    ensures
        final(out)@ == old(out)@ + decimal(n as nat),
    decreases n,
{
    if n >= 10 {
        push_decimal(out, n / 10);
    }
    let d = n % 10;
    let c = match d {
        0 => '0',
        1 => '1',
        2 => '2',
        3 => '3',
        4 => '4',
        5 => '5',
        6 => '6',
        7 => '7',
        8 => '8',
        _ => '9',
    };
    assert(c == digit_char(d as nat));
    let ghost mid = out@;
    out.push(c);
    proof {
        if n >= 10 {
            assert(decimal(n as nat) == decimal((n / 10) as nat).push(digit_char((n % 10) as nat)));
            assert(mid == old(out)@ + decimal((n / 10) as nat));
            assert(out@ =~= old(out)@ + decimal(n as nat));
        } else {
            assert(out@ =~= old(out)@ + decimal(n as nat));
        }
    }
}

/// `str::parse::<u32>` on a character slice.
pub fn parse_u32_exec(s: &[char]) -> (r: Option<u32>)
    ensures
        r == parse_u32(s@),
{
    let start: usize = if s.len() > 0 && s[0] == '+' { 1 } else { 0 };
    let ghost d = if s@.len() > 0 && s@[0] == '+' { s@.drop_first() } else { s@ };
    assert(s@.subrange(start as int, s@.len() as int) =~= d);
    if start >= s.len() {
        return None;
    }
    let mut acc: u64 = 0;
    let mut i = start;
    while i < s.len()
        invariant
            start <= i <= s@.len(),
            start < s@.len(),
            d == s@.subrange(start as int, s@.len() as int),
            d == (if s@.len() > 0 && s@[0] == '+' { s@.drop_first() } else { s@ }),
            acc == digits_value(s@.subrange(start as int, i as int)),
            acc <= u32::MAX,
            forall|t: int| start <= t < i ==> is_digit(#[trigger] s@[t]),
        decreases s@.len() - i,
    {
        let c = s[i];
        if !is_ascii_digit(c) {
            assert(d[i - start] == c);
            assert(!is_digit(d[i - start]));
            assert(!all_digits(d));
            return None;
        }
        let dv = (c as u32 - 48) as u64;
        assert(s@.subrange(start as int, i + 1).drop_last() =~= s@.subrange(
            start as int,
            i as int,
        ));
        let next = acc * 10 + dv;
        assert(digits_value(s@.subrange(start as int, i + 1)) == next);
        if next > 0xFFFF_FFFF {
            proof {
                assert(d.take(i + 1 - start) =~= s@.subrange(start as int, i + 1));
                if all_digits(d) {
                    lemma_digits_value_prefix_mono(d, (i + 1 - start) as int);
                    assert(digits_value(d) > u32::MAX);
                }
                assert(parse_u32(s@) is None);
            }
            return None;
        }
        acc = next;
        i = i + 1;
    }
    assert(s@.subrange(start as int, s@.len() as int) =~= d);
    assert(all_digits(d));
    Some(acc as u32)
}

/// The value of a digit string is at least the value of any of its prefixes.
pub proof fn lemma_digits_value_prefix_mono(d: Seq<char>, k: int)
    requires
        0 <= k <= d.len(),
        all_digits(d),
    ensures
        digits_value(d.take(k)) <= digits_value(d),
    decreases d.len() - k,
{
    if k < d.len() {
        lemma_digits_value_prefix_mono(d, k + 1);
        assert(d.take(k + 1).drop_last() =~= d.take(k));
        assert(is_digit(d[k]));
    } else {
        assert(d.take(k) =~= d);
    }
}

} // verus!
