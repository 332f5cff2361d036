//! Cryptographic failure detector — weak hashes, weak ciphers, insecure
//! randomness and hard-coded keys (CWE-327/328/330/321).
use vstd::prelude::*;
use crate::detect::finding::{Finding, FindingCategory, Severity, new_finding_id};
use crate::text::{
    chars_of, contains, contains_any, contains_any_str, contains_str, decimal, lines, lines_of,
    lowercase_chars, push_decimal, push_str, starts_with, starts_with_str, str_views, string_of,
    trim, trim_chars, unicode_lowercase,
};

verus! {

/// Weak hash algorithms.
pub const WEAK_HASHES: [&'static str; 6] = ["MD5", "SHA1", "md5(", "sha1(", "hashlib.md5", "hashlib.sha1"];

/// Weak cipher algorithms and modes.
pub const WEAK_CIPHERS: [&'static str; 4] = ["DES", "RC4", "Blowfish", "ECB"];

/// Non-cryptographic random number calls.
pub const INSECURE_RANDOM: [&'static str; 3] = ["random.random(", "Math.random(", "rand("];

/// Words that mark a security-sensitive context.
pub const SECURITY_CONTEXT: [&'static str; 8] = [
    "token",
    "secret",
    "password",
    "key",
    "salt",
    "nonce",
    "csrf",
    "session",
];

/// Safe alternatives: a line holding one of these is not flagged.
pub const SAFE_PATTERNS: [&'static str; 15] = [
    "sha256",
    "sha384",
    "sha512",
    "SHA256",
    "SHA384",
    "SHA512",
    "secrets.",
    "os.urandom",
    "SystemRandom",
    "token_bytes",
    "token_hex",
    "PBKDF2",
    "bcrypt",
    "argon2",
    "scrypt",
];

/// What a crypto finding says, apart from its identifier.
pub struct CryptoIssue {
    pub line: u32,
    pub severity: Severity,
    pub cwe: u32,
    pub title: Seq<char>,
    pub description: Seq<char>,
    pub suggestion: Seq<char>,
}

/// First pattern of `pats` that occurs in `t`.
pub open spec fn first_match(t: Seq<char>, pats: Seq<Seq<char>>) -> Option<Seq<char>>
    decreases pats.len(),
{
    if pats.len() == 0 {
        None
    } else if contains(t, pats[0]) {
        Some(pats[0])
    } else {
        first_match(t, pats.drop_first())
    }
}

/// A comment line: starts with `#`, `//` or `*`.
pub open spec fn is_comment(t: Seq<char>) -> bool {
    starts_with(t, "#"@) || starts_with(t, "//"@) || starts_with(t, "*"@)
}

/// The weak-hash finding of a trimmed line, if any.
pub open spec fn hash_issue(t: Seq<char>, n: u32) -> Seq<CryptoIssue> {
    if contains_any(t, str_views(WEAK_HASHES@)) {
        seq![CryptoIssue {
            line: n,
            severity: Severity::Medium,
            cwe: 328,
            title: "Weak hash algorithm detected"@,
            description: "Weak hash function at line "@ + decimal(n as nat)
                + ". MD5 and SHA1 are cryptographically broken."@,
            suggestion: "Use SHA-256 or stronger (hashlib.sha256, SHA-256)."@,
        }]
    } else {
        Seq::empty()
    }
}

/// The weak-cipher finding of a trimmed line, naming the first weak cipher found.
pub open spec fn cipher_issue(t: Seq<char>, n: u32) -> Seq<CryptoIssue> {
    match first_match(t, str_views(WEAK_CIPHERS@)) {
        Some(p) => seq![CryptoIssue {
            line: n,
            severity: Severity::High,
            cwe: 327,
            title: "Weak cipher or mode detected"@,
            description: "Weak cipher/mode at line "@ + decimal(n as nat) + ". "@ + p
                + " is considered insecure."@,
            suggestion: "Use AES-GCM or ChaCha20-Poly1305 with authenticated encryption."@,
        }],
        None => Seq::empty(),
    }
}

/// The insecure-random finding of a trimmed line: a non-cryptographic random
/// call in a line whose lower-cased text names a security context.
pub open spec fn random_issue(t: Seq<char>, n: u32) -> Seq<CryptoIssue> {
    if contains_any(t, str_views(INSECURE_RANDOM@)) && contains_any(
        unicode_lowercase(t),
        str_views(SECURITY_CONTEXT@),
    ) {
        seq![CryptoIssue {
            line: n,
            severity: Severity::Medium,
            cwe: 330,
            title: "Non-cryptographic random used in security context"@,
            description: "Insecure random at line "@ + decimal(n as nat)
                + ". random.random()/Math.random() are not cryptographically secure."@,
            suggestion: "Use secrets.token_bytes(), os.urandom(), or crypto.getRandomValues()."@,
        }]
    } else {
        Seq::empty()
    }
}

/// The hard-coded key finding: a key or IV assigned from a string literal.
pub open spec fn key_issue(t: Seq<char>, n: u32) -> Seq<CryptoIssue> {
    let assigns = contains(t, "key ="@) || contains(t, "key="@) || contains(t, "iv ="@) || contains(
        t,
        "iv="@,
    );
    let literal = contains(t, "\""@) || contains(t, "b\""@) || contains(t, "b'"@);
    let lower = unicode_lowercase(t);
    if assigns && literal && (contains(lower, "key"@) || contains(lower, " iv"@)) {
        seq![CryptoIssue {
            line: n,
            severity: Severity::High,
            cwe: 321,
            title: "Hardcoded cryptographic key or IV"@,
            description: "Hardcoded key/IV at line "@ + decimal(n as nat)
                + ". Keys should be stored securely, not in source code."@,
            suggestion: "Use environment variables, key management services, or config files."@,
        }]
    } else {
        Seq::empty()
    }
}

/// The findings of one trimmed line, in detector order.
pub open spec fn line_issues(t: Seq<char>, n: u32) -> Seq<CryptoIssue> {
    if is_comment(t) || contains_any(t, str_views(SAFE_PATTERNS@)) {
        Seq::empty()
    } else {
        hash_issue(t, n) + cipher_issue(t, n) + random_issue(t, n) + key_issue(t, n)
    }
}

/// The findings of a list of lines, numbered from 1.
pub open spec fn crypto_issues(ls: Seq<Seq<char>>) -> Seq<CryptoIssue>
    decreases ls.len(),
{
    if ls.len() == 0 {
        Seq::empty()
    } else {
        crypto_issues(ls.drop_last()) + line_issues(trim(ls.last()), ls.len() as u32)
    }
}

/// Whether a finding is what `issue` describes, for the file `file`.
pub open spec fn finding_matches(f: Finding, issue: CryptoIssue, file: Seq<char>) -> bool {
    &&& f.detector@ == "crypto_failure"@
    &&& f.severity == issue.severity
    &&& f.category == FindingCategory::SecuritySmell
    &&& f.file@ == file
    &&& f.line == Some(issue.line)
    &&& f.title@ == issue.title
    &&& f.description@ == issue.description
    &&& f.evidence@.len() == 0
    &&& !f.covered
    &&& f.suggestion@ == issue.suggestion
    &&& f.explanation is None
    &&& f.fix is None
    &&& f.cwe_ids@ == seq![issue.cwe]
}

fn make_finding(
    file_path: &str,
    line: u32,
    severity: Severity,
    title: &str,
    description: Vec<char>,
    suggestion: &str,
    cwe: u32,
) -> (f: Finding)
    ensures
        f.detector@ == "crypto_failure"@,
        f.severity == severity,
        f.category == FindingCategory::SecuritySmell,
        f.file@ == file_path@,
        f.line == Some(line),
        f.title@ == title@,
        f.description@ == description@,
        f.evidence@.len() == 0,
        !f.covered,
        f.suggestion@ == suggestion@,
        f.explanation is None,
        f.fix is None,
        f.cwe_ids@ == seq![cwe],
{
    let mut cwe_ids: Vec<u32> = Vec::new();
    cwe_ids.push(cwe);
    assert(cwe_ids@ =~= seq![cwe]);
    Finding {
        id: new_finding_id(),
        detector: String::from_str("crypto_failure"),
        severity,
        category: FindingCategory::SecuritySmell,
        file: String::from_str(file_path),
        line: Some(line),
        title: String::from_str(title),
        description: string_of(&description),
        evidence: Vec::new(),
        covered: false,
        suggestion: String::from_str(suggestion),
        explanation: None,
        fix: None,
        cwe_ids,
    }
}

/// First pattern of `pats` that occurs in `t`.
fn first_match_exec(t: &[char], pats: &[&str]) -> (r: Option<usize>)
    ensures
        match r {
            Some(i) => i < pats@.len() && first_match(t@, str_views(pats@)) == Some(pats@[i as int]@),
            None => first_match(t@, str_views(pats@)) is None,
        },
{
    let mut i: usize = 0;
    assert(str_views(pats@).subrange(0, pats@.len() as int) =~= str_views(pats@));
    while i < pats.len()
        invariant
            i <= pats@.len(),
            first_match(t@, str_views(pats@)) == first_match(
                t@,
                str_views(pats@).subrange(i as int, pats@.len() as int),
            ),
        decreases pats@.len() - i,
    {
        let ghost rest = str_views(pats@).subrange(i as int, pats@.len() as int);
        assert(rest[0] == pats@[i as int]@);
        assert(rest.drop_first() =~= str_views(pats@).subrange(i + 1, pats@.len() as int));
        if contains_str(t, pats[i]) {
            return Some(i);
        }
        i = i + 1;
    }
    None
}

/// Appends the findings of one trimmed line.
fn scan_line(t: &[char], n: u32, file_path: &str, out: &mut Vec<Finding>)
    ensures
        final(out)@.len() == old(out)@.len() + line_issues(t@, n).len(),
        forall|i: int| 0 <= i < old(out)@.len() ==> final(out)@[i] == old(out)@[i],
        forall|i: int|
            0 <= i < line_issues(t@, n).len() ==> finding_matches(
                #[trigger] final(out)@[old(out)@.len() + i],
                line_issues(t@, n)[i],
                file_path@,
            ),
{
    if starts_with_str(t, "#") || starts_with_str(t, "//") || starts_with_str(t, "*")
        || contains_any_str(t, &SAFE_PATTERNS) {
        return;
    }
    let ghost base = out@.len();
    let ghost h = hash_issue(t@, n);
    let ghost c = cipher_issue(t@, n);
    let ghost r = random_issue(t@, n);
    let ghost k = key_issue(t@, n);
    if contains_any_str(t, &WEAK_HASHES) {
        let mut d: Vec<char> = Vec::new();
        push_str(&mut d, "Weak hash function at line ");
        push_decimal(&mut d, n as u64);
        push_str(&mut d, ". MD5 and SHA1 are cryptographically broken.");
        out.push(make_finding(
            file_path,
            n,
            Severity::Medium,
            "Weak hash algorithm detected",
            d,
            "Use SHA-256 or stronger (hashlib.sha256, SHA-256).",
            328,
        ));
    }
    let ghost after_h = out@;
    if let Some(p) = first_match_exec(t, &WEAK_CIPHERS) {
        let mut d: Vec<char> = Vec::new();
        push_str(&mut d, "Weak cipher/mode at line ");
        push_decimal(&mut d, n as u64);
        push_str(&mut d, ". ");
        push_str(&mut d, WEAK_CIPHERS[p]);
        push_str(&mut d, " is considered insecure.");
        out.push(make_finding(
            file_path,
            n,
            Severity::High,
            "Weak cipher or mode detected",
            d,
            "Use AES-GCM or ChaCha20-Poly1305 with authenticated encryption.",
            327,
        ));
    }
    let ghost after_c = out@;
    if contains_any_str(t, &INSECURE_RANDOM) {
        let lower = lowercase_chars(t);
        if contains_any_str(&lower, &SECURITY_CONTEXT) {
            let mut d: Vec<char> = Vec::new();
            push_str(&mut d, "Insecure random at line ");
            push_decimal(&mut d, n as u64);
            push_str(&mut d, ". random.random()/Math.random() are not cryptographically secure.");
            out.push(make_finding(
                file_path,
                n,
                Severity::Medium,
                "Non-cryptographic random used in security context",
                d,
                "Use secrets.token_bytes(), os.urandom(), or crypto.getRandomValues().",
                330,
            ));
        }
    }
    let ghost after_r = out@;
    if (contains_str(t, "key =") || contains_str(t, "key=") || contains_str(t, "iv =")
        || contains_str(t, "iv=")) && (contains_str(t, "\"") || contains_str(t, "b\"")
        || contains_str(t, "b'")) {
        let lower = lowercase_chars(t);
        if contains_str(&lower, "key") || contains_str(&lower, " iv") {
            let mut d: Vec<char> = Vec::new();
            push_str(&mut d, "Hardcoded key/IV at line ");
            push_decimal(&mut d, n as u64);
            push_str(&mut d, ". Keys should be stored securely, not in source code.");
            out.push(make_finding(
                file_path,
                n,
                Severity::High,
                "Hardcoded cryptographic key or IV",
                d,
                "Use environment variables, key management services, or config files.",
                321,
            ));
        }
    }
    proof {
        reveal_strlit("#");
        reveal_strlit("//");
        reveal_strlit("*");
        let all = h + c + r + k;
        assert(line_issues(t@, n) == all);
        assert(after_h.len() == base + h.len());
        assert(after_c.len() == base + h.len() + c.len());
        assert(after_r.len() == base + h.len() + c.len() + r.len());
        assert(out@.len() == base + all.len());
        assert forall|i: int| 0 <= i < all.len() implies finding_matches(
            #[trigger] out@[base + i],
            all[i],
            file_path@,
        ) by {
            if i < h.len() {
                assert(out@[base + i] == after_h[base + i]);
            } else if i < h.len() + c.len() {
                assert(out@[base + i] == after_c[base + i]);
            } else if i < h.len() + c.len() + r.len() {
                assert(out@[base + i] == after_r[base + i]);
            }
        }
    }
}

/// Scans source code for cryptographic failures. Each line is trimmed;
/// comment lines and lines with a safe alternative are skipped; otherwise a
/// line yields, in order, a weak-hash finding, a weak-cipher finding, an
/// insecure-random finding and a hard-coded key finding, each when its
/// pattern occurs. Lines are numbered from 1.
pub fn scan_crypto_failure(source: &str, file_path: &str) -> (fs: Vec<Finding>)
    ensures
        fs@.len() == crypto_issues(lines(source@)).len(),
        forall|i: int|
            0 <= i < fs@.len() ==> finding_matches(
                #[trigger] fs@[i],
                crypto_issues(lines(source@))[i],
                file_path@,
            ),
{
    let sv = chars_of(source);
    let ls = lines_of(&sv);
    let ghost lv = ls@.map_values(|x: Vec<char>| x@);
    let mut out: Vec<Finding> = Vec::new();
    let mut i: usize = 0;
    while i < ls.len()
        invariant
            i <= ls@.len(),
            lv == ls@.map_values(|x: Vec<char>| x@),
            out@.len() == crypto_issues(lv.take(i as int)).len(),
            forall|j: int|
                0 <= j < out@.len() ==> finding_matches(
                    #[trigger] out@[j],
                    crypto_issues(lv.take(i as int))[j],
                    file_path@,
                ),
        decreases ls@.len() - i,
    {
        let t = trim_chars(&ls[i]);
        let ghost prev = out@;
        scan_line(&t, (i + 1) as u32, file_path, &mut out);
        proof {
            let pre = lv.take(i as int);
            let post = lv.take(i + 1);
            assert(post.drop_last() =~= pre);
            assert(post.last() == ls@[i as int]@);
            assert(post.len() as u32 == (i + 1) as u32);
            let li = line_issues(t@, (i + 1) as u32);
            assert(crypto_issues(post) == crypto_issues(pre) + li);
            assert forall|j: int| 0 <= j < out@.len() implies finding_matches(
                #[trigger] out@[j],
                crypto_issues(post)[j],
                file_path@,
            ) by {
                if j < prev.len() {
                    assert(out@[j] == prev[j]);
                } else {
                    let d = j - prev.len();
                    assert(out@[prev.len() + d] == out@[j]);
                }
            }
        }
        i = i + 1;
    }
    assert(lv.take(ls@.len() as int) =~= lv);
    out
}

// ───────────────────────── laws ─────────────────────────

/// The words that mark a security-sensitive context.
pub open spec fn security_words() -> Seq<Seq<char>> {
    seq!["token"@, "secret"@, "password"@, "key"@, "salt"@, "nonce"@, "csrf"@, "session"@]
}

/// The non-cryptographic random calls.
pub open spec fn random_calls() -> Seq<Seq<char>> {
    seq!["random.random("@, "Math.random("@, "rand("@]
}

/// The weak hash names.
pub open spec fn weak_hash_names() -> Seq<Seq<char>> {
    seq!["MD5"@, "SHA1"@, "md5("@, "sha1("@, "hashlib.md5"@, "hashlib.sha1"@]
}

/// The weak cipher names and modes.
pub open spec fn weak_cipher_names() -> Seq<Seq<char>> {
    seq!["DES"@, "RC4"@, "Blowfish"@, "ECB"@]
}

/// The safe alternatives that clear a line.
pub open spec fn safe_alternatives() -> Seq<Seq<char>> {
    seq![
        "sha256"@,
        "sha384"@,
        "sha512"@,
        "SHA256"@,
        "SHA384"@,
        "SHA512"@,
        "secrets."@,
        "os.urandom"@,
        "SystemRandom"@,
        "token_bytes"@,
        "token_hex"@,
        "PBKDF2"@,
        "bcrypt"@,
        "argon2"@,
        "scrypt"@,
    ]
}

proof fn lemma_word_lists()
    ensures
        str_views(SECURITY_CONTEXT@) == security_words(),
        str_views(INSECURE_RANDOM@) == random_calls(),
        str_views(WEAK_HASHES@) == weak_hash_names(),
        str_views(WEAK_CIPHERS@) == weak_cipher_names(),
        str_views(SAFE_PATTERNS@) == safe_alternatives(),
{
    assert(str_views(SECURITY_CONTEXT@) =~= security_words());
    assert(str_views(INSECURE_RANDOM@) =~= random_calls());
    assert(str_views(WEAK_HASHES@) =~= weak_hash_names());
    assert(str_views(WEAK_CIPHERS@) =~= weak_cipher_names());
    assert(str_views(SAFE_PATTERNS@) =~= safe_alternatives());
}

/// A line that is scanned: not a comment and with no safe alternative.
pub open spec fn scanned_crypto_line(t: Seq<char>) -> bool {
    &&& !starts_with(t, "#"@)
    &&& !starts_with(t, "//"@)
    &&& !starts_with(t, "*"@)
    &&& forall|q: int| 0 <= q < safe_alternatives().len() ==> !contains(t, #[trigger] safe_alternatives()[q])
}

/// Each finding of a line stands among the findings of the whole text.
proof fn lemma_issue_listed(ls: Seq<Seq<char>>, j: int, m: int)
    requires
        0 <= j < ls.len(),
        0 <= m < line_issues(trim(ls[j]), (j + 1) as u32).len(),
    ensures
        exists|k: int|
            0 <= k < crypto_issues(ls).len() && #[trigger] crypto_issues(ls)[k] == line_issues(
                trim(ls[j]),
                (j + 1) as u32,
            )[m],
    decreases ls.len(),
{
    let prev = crypto_issues(ls.drop_last());
    let li = line_issues(trim(ls.last()), ls.len() as u32);
    assert(crypto_issues(ls) == prev + li);
    if j == ls.len() - 1 {
        assert(ls.last() == ls[j]);
        assert(crypto_issues(ls)[prev.len() + m] == li[m]);
    } else {
        assert(ls.drop_last()[j] == ls[j]);
        lemma_issue_listed(ls.drop_last(), j, m);
        let k = choose|k: int|
            0 <= k < prev.len() && #[trigger] prev[k] == line_issues(trim(ls[j]), (j + 1) as u32)[m];
        assert(crypto_issues(ls)[k] == prev[k]);
    }
}

/// Where some pattern occurs, a first one is found.
proof fn lemma_first_match_some(t: Seq<char>, pats: Seq<Seq<char>>)
    requires
        contains_any(t, pats),
    ensures
        first_match(t, pats) is Some,
    decreases pats.len(),
{
    if !contains(t, pats[0]) {
        let i = choose|i: int| 0 <= i < pats.len() && contains(t, #[trigger] pats[i]);
        assert(pats.drop_first()[i - 1] == pats[i]);
        lemma_first_match_some(t, pats.drop_first());
    }
}

/// The three kinds of finding a scanned line owes, by position in its list.
proof fn lemma_scanned_line(t: Seq<char>, n: u32)
    requires
        scanned_crypto_line(t),
    ensures
        line_issues(t, n) == hash_issue(t, n) + cipher_issue(t, n) + random_issue(t, n) + key_issue(t, n),
{
    lemma_word_lists();
    if contains_any(t, str_views(SAFE_PATTERNS@)) {
        let q = choose|q: int| 0 <= q < safe_alternatives().len() && contains(t, #[trigger] safe_alternatives()[q]);
        assert(false);
    }
}

/// A scanned line (not a comment, no safe alternative) that uses a weak hash
/// (`MD5`, `SHA1`, `md5(`, `sha1(`, `hashlib.md5`, `hashlib.sha1`) gets a
/// Medium CWE-328 finding for that line.
pub proof fn law_weak_hash_flagged(ls: Seq<Seq<char>>, j: int, m: int)
    requires
        0 <= j < ls.len(),
        scanned_crypto_line(trim(ls[j])),
        0 <= m < weak_hash_names().len(),
        contains(trim(ls[j]), weak_hash_names()[m]),
    ensures
        exists|k: int|
            0 <= k < crypto_issues(ls).len() && (#[trigger] crypto_issues(ls)[k]).line == (j + 1) as u32
                && crypto_issues(ls)[k].cwe == 328 && crypto_issues(ls)[k].severity == Severity::Medium,
{
    let t = trim(ls[j]);
    let n = (j + 1) as u32;
    lemma_word_lists();
    lemma_scanned_line(t, n);
    assert(contains(t, str_views(WEAK_HASHES@)[m]));
    let li = line_issues(t, n);
    assert(li[0] == hash_issue(t, n)[0]);
    lemma_issue_listed(ls, j, 0);
}

/// A scanned line that names a weak cipher or mode (`DES`, `RC4`,
/// `Blowfish`, `ECB`) gets a High CWE-327 finding for that line.
pub proof fn law_weak_cipher_flagged(ls: Seq<Seq<char>>, j: int, m: int)
    requires
        0 <= j < ls.len(),
        scanned_crypto_line(trim(ls[j])),
        0 <= m < weak_cipher_names().len(),
        contains(trim(ls[j]), weak_cipher_names()[m]),
    ensures
        exists|k: int|
            0 <= k < crypto_issues(ls).len() && (#[trigger] crypto_issues(ls)[k]).line == (j + 1) as u32
                && crypto_issues(ls)[k].cwe == 327 && crypto_issues(ls)[k].severity == Severity::High,
{
    let t = trim(ls[j]);
    let n = (j + 1) as u32;
    lemma_word_lists();
    lemma_scanned_line(t, n);
    assert(contains(t, str_views(WEAK_CIPHERS@)[m]));
    lemma_first_match_some(t, str_views(WEAK_CIPHERS@));
    let h = hash_issue(t, n);
    let li = line_issues(t, n);
    assert(li[h.len() as int] == cipher_issue(t, n)[0]);
    lemma_issue_listed(ls, j, h.len() as int);
}

/// A scanned line that calls `random.random(`, `Math.random(` or `rand(`
/// and whose lower-cased text names a security context gets a Medium
/// CWE-330 finding for that line.
pub proof fn law_insecure_random_flagged(ls: Seq<Seq<char>>, j: int, m: int, w: int)
    requires
        0 <= j < ls.len(),
        scanned_crypto_line(trim(ls[j])),
        0 <= m < random_calls().len(),
        contains(trim(ls[j]), random_calls()[m]),
        0 <= w < security_words().len(),
        contains(unicode_lowercase(trim(ls[j])), security_words()[w]),
    ensures
        exists|k: int|
            0 <= k < crypto_issues(ls).len() && (#[trigger] crypto_issues(ls)[k]).line == (j + 1) as u32
                && crypto_issues(ls)[k].cwe == 330 && crypto_issues(ls)[k].severity == Severity::Medium,
{
    let t = trim(ls[j]);
    let n = (j + 1) as u32;
    lemma_word_lists();
    lemma_scanned_line(t, n);
    assert(contains(t, str_views(INSECURE_RANDOM@)[m]));
    assert(contains(unicode_lowercase(t), str_views(SECURITY_CONTEXT@)[w]));
    let h = hash_issue(t, n);
    let c = cipher_issue(t, n);
    let li = line_issues(t, n);
    let at: int = (h.len() + c.len()) as int;
    assert(li[at] == random_issue(t, n)[0]);
    lemma_issue_listed(ls, j, at);
}

/// An insecure-random finding (CWE-330) is only raised for a line that calls
/// `random.random(`, `Math.random(` or `rand(` and whose lower-cased text
/// names a security context (`token`, `secret`, `password`, `key`, `salt`,
/// `nonce`, `csrf` or `session`); the finding names that line.
pub proof fn law_insecure_random_needs_security_context(ls: Seq<Seq<char>>, k: int)
    requires
        0 <= k < crypto_issues(ls).len(),
        crypto_issues(ls)[k].cwe == 330,
    ensures
        exists|j: int|
            0 <= j < ls.len() && crypto_issues(ls)[k].line == (j + 1) as u32 && contains_any(
                trim(#[trigger] ls[j]),
                random_calls(),
            ) && contains_any(unicode_lowercase(trim(ls[j])), security_words()),
    decreases ls.len(),
{
    lemma_word_lists();
    let prev = crypto_issues(ls.drop_last());
    let t = trim(ls.last());
    let n = ls.len() as u32;
    assert(crypto_issues(ls) == prev + line_issues(t, n));
    if k < prev.len() {
        assert(crypto_issues(ls)[k] == prev[k]);
        law_insecure_random_needs_security_context(ls.drop_last(), k);
        let j = choose|j: int|
            0 <= j < ls.drop_last().len() && prev[k].line == (j + 1) as u32 && contains_any(
                trim(#[trigger] ls.drop_last()[j]),
                random_calls(),
            ) && contains_any(unicode_lowercase(trim(ls.drop_last()[j])), security_words());
        assert(ls.drop_last()[j] == ls[j]);
    } else {
        let m = k - prev.len();
        let li = line_issues(t, n);
        assert(crypto_issues(ls)[k] == li[m]);
        let h = hash_issue(t, n);
        let c = cipher_issue(t, n);
        let r = random_issue(t, n);
        let y = key_issue(t, n);
        assert(li == h + c + r + y);
        if m < h.len() {
            assert(li[m] == h[m]);
        } else if m < h.len() + c.len() {
            assert(li[m] == c[m - h.len()]);
        } else if m < h.len() + c.len() + r.len() {
            assert(li[m] == r[m - h.len() - c.len()]);
        } else {
            assert(li[m] == y[m - h.len() - c.len() - r.len()]);
        }
        assert(ls[ls.len() - 1] == ls.last());
    }
}

} // verus!
