//! Reading what `git` prints: changed files, blame dates.
use vstd::prelude::*;
use crate::text::{
    chars_of, decimal, is_ascii_digit, is_digit, lines, lines_of, push_decimal, starts_with,
    string_of, trim, trim_chars, all_digits, digits_value,
};

verus! {

// ───────────────────────── dates ─────────────────────────

/// Division rounding toward zero, as Rust's `/` on integers.
pub open spec fn tdiv(a: int, b: int) -> int {
    if a >= 0 {
        a / b
    } else {
        -((-a) / b)
    }
}

/// Days per 400-year era of the proleptic Gregorian calendar.
pub open spec fn era_days() -> int {
    146097
}

/// The era (400-year block from 0000-03-01) of a day counted from 0000-03-01.
pub open spec fn era_of(z: int) -> int {
    if z >= 0 {
        z / era_days()
    } else {
        -((-z + era_days() - 1) / era_days())
    }
}

/// The civil date `(year, month, day)` of a day number counted from
/// 1970-01-01, by the days-to-civil algorithm over 400-year eras starting
/// on March 1 (divisions round toward zero, as in Rust).
pub open spec fn civil_from_days(days: int) -> (int, int, int) {
    let z = days + 719468;
    let era = era_of(z);
    let doe = z - era * 146097;
    let yoe = tdiv(doe - tdiv(doe, 1460) + tdiv(doe, 36524) - tdiv(doe, 146096), 365);
    let y = yoe + era * 400;
    let doy = doe - (365 * yoe + tdiv(yoe, 4) - tdiv(yoe, 100));
    let mp = tdiv(5 * doy + 2, 153);
    let d = doy - tdiv(153 * mp + 2, 5) + 1;
    let m = if mp < 10 {
        mp + 3
    } else {
        mp - 9
    };
    (if m <= 2 {
        y + 1
    } else {
        y
    }, m, d)
}

/// `n` zeros.
pub open spec fn zeros(n: int) -> Seq<char> {
    Seq::new(if n > 0 { n as nat } else { 0 }, |i: int| '0')
}

/// `n` in decimal padded with zeros to `width` characters, a minus sign
/// counted in the width (`format!("{:0width$}", n)`).
pub open spec fn padded(n: int, width: int) -> Seq<char> {
    if n < 0 {
        let digits = decimal((-n) as nat);
        "-"@ + zeros(width - 1 - digits.len()) + digits
    } else {
        let digits = decimal(n as nat);
        zeros(width - digits.len()) + digits
    }
}

/// `YYYY-MM-DD` of a day number counted from 1970-01-01.
pub open spec fn date_text(days: int) -> Seq<char> {
    let (y, m, d) = civil_from_days(days);
    padded(y, 4) + "-"@ + padded(m, 2) + "-"@ + padded(d, 2)
}

/// The day numbers whose date arithmetic fits in an `i64`.
pub open spec fn day_fits(days: i64) -> bool {
    days <= i64::MAX - 719468
}

/// Rounds toward zero (see [`tdiv`]).
fn tdiv_exec(a: i64, b: i64) -> (r: i64)
    requires
        b > 0,
        a > i64::MIN,
    ensures
        r == tdiv(a as int, b as int),
{
    if a >= 0 {
        a / b
    } else {
        -((-a) / b)
    }
}

/// Appends `n` zeros.
fn push_zeros(out: &mut Vec<char>, n: usize)
    ensures
        final(out)@ == old(out)@ + zeros(n as int),
{
    let mut i: usize = 0;
    while i < n
        invariant
            i <= n,
            out@ == old(out)@ + zeros(i as int),
        decreases n - i,
    {
        out.push('0');
        assert(zeros(i + 1) =~= zeros(i as int).push('0'));
        i = i + 1;
    }
}

/// Appends `n` padded to `width` (see [`padded`]).
fn push_padded(out: &mut Vec<char>, n: i64, width: usize)
    requires
        n > i64::MIN,
        1 <= width <= 4,
    ensures
        final(out)@ == old(out)@ + padded(n as int, width as int),
{
    let mut digits: Vec<char> = Vec::new();
    let mag: u64 = if n < 0 { (-n) as u64 } else { n as u64 };
    push_decimal(&mut digits, mag);
    assert(digits@ == decimal(mag as nat));
    let dl = digits.len();
    let ghost start = old(out)@;
    if n < 0 {
        out.push('-');
        let pad: usize = if width - 1 > dl { width - 1 - dl } else { 0 };
        assert(zeros(pad as int) =~= zeros(width - 1 - dl));
        push_zeros(out, pad);
    } else {
        let pad: usize = if width > dl { width - dl } else { 0 };
        assert(zeros(pad as int) =~= zeros(width - dl));
        push_zeros(out, pad);
    }
    let ghost mid = out@;
    let mut i: usize = 0;
    while i < digits.len()
        invariant
            i <= digits@.len(),
            out@ == mid + digits@.take(i as int),
        decreases digits@.len() - i,
    {
        out.push(digits[i]);
        assert(digits@.take(i + 1) =~= digits@.take(i as int).push(digits@[i as int]));
        i = i + 1;
    }
    assert(digits@.take(digits@.len() as int) =~= digits@);
    proof {
        reveal_strlit("-");
    }
    assert(out@ =~= start + padded(n as int, width as int));
}

/// The era of `z` and the day within it (see [`era_of`]).
fn era_exec(z: i64) -> (r: (i64, i64))
    requires
        z > i64::MIN + 146097,
    ensures
        r.0 == era_of(z as int),
        r.1 == z - r.0 * 146097,
        0 <= r.1 < 146097,
        i64::MIN + 200000 <= r.0 * 400 <= i64::MAX - 200000,
{
    if z >= 0 {
        let era = z / 146097;
        proof {
            vstd::arithmetic::div_mod::lemma_fundamental_div_mod(z as int, 146097);
        }
        (era, z - era * 146097)
    } else {
        let a = -z + 146096;
        let t = a / 146097;
        proof {
            vstd::arithmetic::div_mod::lemma_fundamental_div_mod(a as int, 146097);
        }
        let era = -t;
        (era, z - era * 146097)
    }
}

/// Converts a day number since 1970-01-01 to its `YYYY-MM-DD` date in the
/// proleptic Gregorian calendar (see [`date_text`]); the year has at least
/// four digits, a minus sign counted among them.
pub fn epoch_to_date(days_since_epoch: i64) -> (s: String)
    requires
        day_fits(days_since_epoch),
    ensures
        s@ == date_text(days_since_epoch as int),
{
    let z = days_since_epoch + 719468;
    let (era, doe) = era_exec(z);
    let yoe = tdiv_exec(doe - tdiv_exec(doe, 1460) + tdiv_exec(doe, 36524) - tdiv_exec(doe, 146096), 365);
    assert(0 <= tdiv(doe as int, 1460) <= doe);
    assert(-1000 <= yoe <= 1000);
    let y = yoe + era * 400;
    let doy = doe - (365 * yoe + tdiv_exec(yoe, 4) - tdiv_exec(yoe, 100));
    let mp = tdiv_exec(5 * doy + 2, 153);
    let d = doy - tdiv_exec(153 * mp + 2, 5) + 1;
    let m = if mp < 10 { mp + 3 } else { mp - 9 };
    let y = if m <= 2 { y + 1 } else { y };
    let mut out: Vec<char> = Vec::new();
    assert(-1000000 <= m <= 1000000 && -1000000 <= d <= 1000000);
    push_padded(&mut out, y, 4);
    out.push('-');
    push_padded(&mut out, m, 2);
    out.push('-');
    push_padded(&mut out, d, 2);
    proof {
        reveal_strlit("-");
    }
    assert(out@ =~= date_text(days_since_epoch as int));
    string_of(&out)
}

// ───────────────────────── blame output ─────────────────────────

/// `str::parse::<i64>`: an optional sign, then one or more ASCII digits
/// whose value fits in an `i64`.
pub open spec fn parse_i64(s: Seq<char>) -> Option<i64> {
    let neg = s.len() > 0 && s[0] == '-';
    let d = if s.len() > 0 && (s[0] == '+' || s[0] == '-') {
        s.drop_first()
    } else {
        s
    };
    if d.len() > 0 && all_digits(d) {
        if neg && digits_value(d) <= 9223372036854775808 {
            Some((-(digits_value(d) as int)) as i64)
        } else if !neg && digits_value(d) <= i64::MAX {
            Some(digits_value(d) as i64)
        } else {
            None
        }
    } else {
        None
    }
}

/// The epoch seconds of the first `author-time <n>` line of `git blame
/// --porcelain` output whose number parses.
pub open spec fn blame_epoch(ls: Seq<Seq<char>>) -> Option<i64>
    decreases ls.len(),
{
    if ls.len() == 0 {
        None
    } else {
        let l = ls[0];
        let p = "author-time "@;
        if starts_with(l, p) && parse_i64(trim(l.subrange(p.len() as int, l.len() as int))) is Some {
            parse_i64(trim(l.subrange(p.len() as int, l.len() as int)))
        } else {
            blame_epoch(ls.drop_first())
        }
    }
}

proof fn lemma_digits_value_mono(d: Seq<char>, k: int)
    requires
        0 <= k <= d.len(),
        all_digits(d),
    ensures
        digits_value(d.take(k)) <= digits_value(d),
    decreases d.len() - k,
{
    if k < d.len() {
        assert(d.drop_last().take(k) =~= d.take(k));
        assert(all_digits(d.drop_last()));
        lemma_digits_value_mono(d.drop_last(), k);
    } else {
        assert(d.take(k) =~= d);
    }
}

/// `str::parse::<i64>` (see [`parse_i64`]).
pub fn parse_i64_exec(s: &[char]) -> (r: Option<i64>)
    ensures
        r == parse_i64(s@),
{
    let n = s.len();
    if n == 0 {
        return None;
    }
    let neg = s[0] == '-';
    let start: usize = if s[0] == '+' || s[0] == '-' { 1 } else { 0 };
    let ghost d = s@.subrange(start as int, n as int);
    assert(d =~= (if s@.len() > 0 && (s@[0] == '+' || s@[0] == '-') { s@.drop_first() } else { s@ }));
    if start >= n {
        return None;
    }
    let limit: u64 = if neg { 9223372036854775808 } else { 9223372036854775807 };
    let mut acc: u64 = 0;
    let mut i: usize = start;
    while i < n
        invariant
            start <= i <= n,
            start < n,
            n == s@.len(),
            d == s@.subrange(start as int, n as int),
            acc == digits_value(s@.subrange(start as int, i as int)),
            acc <= limit,
            neg == (s@.len() > 0 && s@[0] == '-'),
            d == (if s@.len() > 0 && (s@[0] == '+' || s@[0] == '-') { s@.drop_first() } else { s@ }),
            limit == (if neg { 9223372036854775808u64 } else { 9223372036854775807u64 }),
            forall|t: int| start <= t < i ==> is_digit(#[trigger] s@[t]),
        decreases n - i,
    {
        let c = s[i];
        if !is_ascii_digit(c) {
            assert(d[i - start] == c);
            assert(!all_digits(d));
            return None;
        }
        let dv = (c as u32 - 48) as u64;
        assert(dv <= 9);
        assert(s@.subrange(start as int, i + 1).drop_last() =~= s@.subrange(start as int, i as int));
        if acc > (limit - dv) / 10 {
            proof {
                assert(acc * 10 + dv > limit) by (nonlinear_arith)
                    requires
                        acc > (limit - dv) / 10,
                        dv <= 9,
                        limit >= 9;
                assert(digits_value(s@.subrange(start as int, i + 1)) > limit);
                assert(d.take(i + 1 - start) =~= s@.subrange(start as int, i + 1));
                if all_digits(d) {
                    lemma_digits_value_mono(d, (i + 1 - start) as int);
                }
            }
            return None;
        }
        proof {
            assert(acc * 10 + dv <= limit) by (nonlinear_arith)
                requires
                    acc <= (limit - dv) / 10,
                    dv <= 9,
                    limit >= 9;
        }
        acc = acc * 10 + dv;
        i = i + 1;
    }
    assert(s@.subrange(start as int, n as int) =~= d);
    assert(all_digits(d));
    if neg {
        if acc == 9223372036854775808 {
            Some(i64::MIN)
        } else {
            Some(-(acc as i64))
        }
    } else {
        Some(acc as i64)
    }
}

/// The epoch seconds that `git blame --porcelain` output gives for the line
/// blamed (see [`blame_epoch`]).
pub fn blame_epoch_exec(stdout: &str) -> (r: Option<i64>)
    ensures
        r == blame_epoch(lines(stdout@)),
{
    let cs = chars_of(stdout);
    let ls = lines_of(&cs);
    let ghost lv = ls@.map_values(|l: Vec<char>| l@);
    let prefix = chars_of("author-time ");
    let pl = prefix.len();
    let mut i: usize = 0;
    assert(lv.subrange(0, lv.len() as int) =~= lv);
    while i < ls.len()
        invariant
            i <= ls@.len(),
            lv == ls@.map_values(|l: Vec<char>| l@),
            lv == lines(stdout@),
            prefix@ == "author-time "@,
            pl == prefix@.len(),
            blame_epoch(lv) == blame_epoch(lv.subrange(i as int, lv.len() as int)),
        decreases ls@.len() - i,
    {
        let ghost rest = lv.subrange(i as int, lv.len() as int);
        assert(rest[0] == ls@[i as int]@);
        assert(rest.drop_first() =~= lv.subrange(i + 1, lv.len() as int));
        let l = &ls[i];
        let ll = l.len();
        if ll >= pl && crate::text::occurs_at_exec(l, &prefix, 0) {
            let t = trim_chars(&crate::text::slice_chars(l, pl, ll));
            match parse_i64_exec(&t) {
                Some(v) => {
                    return Some(v);
                },
                None => {},
            }
        } else {
            assert(!starts_with(l@, "author-time "@));
        }
        i = i + 1;
    }
    None
}

/// The date (`YYYY-MM-DD`) of the blamed line: its `author-time` seconds
/// divided by 86400 (rounding toward zero) and converted; `None` where the
/// output has no parsable `author-time` line.
pub fn blame_date_from_porcelain(stdout: &str) -> (r: Option<String>)
    ensures
        match blame_epoch(lines(stdout@)) {
            Some(e) => r matches Some(s) && s@ == date_text(tdiv(e as int, 86400)),
            None => r is None,
        },
{
    match blame_epoch_exec(stdout) {
        Some(epoch) => {
            let days = if epoch >= 0 {
                epoch / 86400
            } else {
                -((-(epoch as i128)) / 86400) as i64
            };
            assert(days == tdiv(epoch as int, 86400));
            Some(epoch_to_date(days))
        },
        None => None,
    }
}

// ───────────────────────── changed files ─────────────────────────

/// The trimmed nonempty lines of `git diff --name-only` output.
pub open spec fn changed_paths(ls: Seq<Seq<char>>) -> Seq<Seq<char>>
    decreases ls.len(),
{
    if ls.len() == 0 {
        Seq::empty()
    } else {
        let prev = changed_paths(ls.drop_last());
        if trim(ls.last()).len() > 0 {
            prev.push(trim(ls.last()))
        } else {
            prev
        }
    }
}

/// The files that `git diff --name-only` lists: each nonempty line, trimmed.
pub fn changed_files_from_output(stdout: &str) -> (r: Vec<String>)
    ensures
        r@.map_values(|s: String| s@) == changed_paths(lines(stdout@)),
{
    let cs = chars_of(stdout);
    let ls = lines_of(&cs);
    let ghost lv = ls@.map_values(|l: Vec<char>| l@);
    let mut out: Vec<String> = Vec::new();
    let mut i: usize = 0;
    assert(lv.take(0) =~= Seq::<Seq<char>>::empty());
    while i < ls.len()
        invariant
            i <= ls@.len(),
            lv == ls@.map_values(|l: Vec<char>| l@),
            lv == lines(stdout@),
            out@.map_values(|s: String| s@) == changed_paths(lv.take(i as int)),
        decreases ls@.len() - i,
    {
        assert(lv.take(i + 1).drop_last() =~= lv.take(i as int));
        assert(lv.take(i + 1).last() == ls@[i as int]@);
        let t = trim_chars(&ls[i]);
        if t.len() > 0 {
            let ghost before = out@.map_values(|s: String| s@);
            out.push(string_of(&t));
            assert(out@.map_values(|s: String| s@) =~= before.push(t@));
        }
        i = i + 1;
    }
    assert(lv.take(lv.len() as int) =~= lv);
    out
}

} // verus!
