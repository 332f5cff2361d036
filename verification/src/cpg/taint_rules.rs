//! Configurable taint rules: built-in sets for Python and JavaScript, plus a
//! merge for user-defined rules.
use vstd::prelude::*;
use crate::text::{chars_of, contains_any, contains_any_exec, strings_of, str_views, views};

verus! {

/// Python taint sources.
pub const PYTHON_RULE_SOURCES: [&'static str; 8] = [
    "request.args",
    "request.form",
    "request.data",
    "request.json",
    "request.get_json",
    "sys.argv",
    "input",
    "os.environ",
];

/// Python taint sinks.
pub const PYTHON_RULE_SINKS: [&'static str; 10] = [
    "execute",
    "executemany",
    "os.system",
    "os.popen",
    "subprocess.call",
    "subprocess.run",
    "eval",
    "exec",
    "open",
    "render_template_string",
];

/// Python sanitizers.
pub const PYTHON_RULE_SANITIZERS: [&'static str; 7] = [
    "escape",
    "quote",
    "sanitize",
    "clean",
    "parameterize",
    "bleach.clean",
    "markupsafe.escape",
];

/// JavaScript taint sources.
pub const JS_RULE_SOURCES: [&'static str; 8] = [
    "req.body",
    "req.params",
    "req.query",
    "req.headers",
    "document.location",
    "window.location",
    "process.argv",
    "process.env",
];

/// JavaScript taint sinks.
pub const JS_RULE_SINKS: [&'static str; 10] = [
    "eval",
    "exec",
    "execSync",
    "innerHTML",
    "document.write",
    "child_process.exec",
    "db.query",
    "pool.query",
    "fs.readFile",
    "fs.writeFile",
];

/// JavaScript sanitizers.
pub const JS_RULE_SANITIZERS: [&'static str; 5] = [
    "escape",
    "sanitize",
    "encodeURIComponent",
    "DOMPurify.sanitize",
    "validator.escape",
];

/// `a` followed by those strings of `b` that are not in it yet, in order,
/// each added once.
pub open spec fn merge_list(a: Seq<Seq<char>>, b: Seq<Seq<char>>) -> Seq<Seq<char>>
    decreases b.len(),
{
    if b.len() == 0 {
        a
    } else {
        merge_list(if a.contains(b[0]) { a } else { a.push(b[0]) }, b.drop_first())
    }
}

/// A set of taint analysis rules: sources, sinks, and sanitizers.
#[derive(Debug)]
pub struct TaintRuleSet {
    pub sources: Vec<String>,
    pub sinks: Vec<String>,
    pub sanitizers: Vec<String>,
}

/// Appends to `dst` each string of `src` it does not hold yet.
fn merge_into(dst: &mut Vec<String>, src: &[String])
    ensures
        views(final(dst)@) == merge_list(views(old(dst)@), views(src@)),
{
    let mut i: usize = 0;
    assert(src@.subrange(0, src@.len() as int) =~= src@);
    while i < src.len()
        invariant
            i <= src@.len(),
            merge_list(views(old(dst)@), views(src@)) == merge_list(
                views(dst@),
                views(src@.subrange(i as int, src@.len() as int)),
            ),
        decreases src@.len() - i,
    {
        let ghost rest = views(src@.subrange(i as int, src@.len() as int));
        let ghost before = views(dst@);
        assert(rest[0] == src@[i as int]@);
        assert(rest.drop_first() =~= views(src@.subrange(i + 1, src@.len() as int)));
        let mut j: usize = 0;
        while j < dst.len() && !(dst[j] == src[i])
            invariant
                i < src@.len(),
                j <= dst@.len(),
                before == views(dst@),
                forall|t: int| 0 <= t < j ==> dst@[t]@ != src@[i as int]@,
            decreases dst@.len() - j,
        {
            j = j + 1;
        }
        if j < dst.len() {
            assert(before[j as int] == src@[i as int]@);
            assert(before.contains(rest[0]));
        } else {
            assert(!before.contains(rest[0])) by {
                if before.contains(rest[0]) {
                    let t = choose|t: int| 0 <= t < before.len() && before[t] == rest[0];
                    assert(dst@[t]@ == src@[i as int]@);
                }
            }
            dst.push(src[i].clone());
            assert(views(dst@) =~= before.push(rest[0]));
        }
        i = i + 1;
    }
    assert(views(src@.subrange(i as int, src@.len() as int)) =~= Seq::<Seq<char>>::empty());
}

impl TaintRuleSet {
    /// An empty rule set.
    pub fn empty() -> (r: Self)
        ensures
            r.sources@.len() == 0,
            r.sinks@.len() == 0,
            r.sanitizers@.len() == 0,
    {
        TaintRuleSet { sources: Vec::new(), sinks: Vec::new(), sanitizers: Vec::new() }
    }

    /// Default Python taint rules.
    pub fn python_defaults() -> (r: Self)
        ensures
            views(r.sources@) == str_views(PYTHON_RULE_SOURCES@),
            views(r.sinks@) == str_views(PYTHON_RULE_SINKS@),
            views(r.sanitizers@) == str_views(PYTHON_RULE_SANITIZERS@),
    {
        TaintRuleSet {
            sources: strings_of(&PYTHON_RULE_SOURCES),
            sinks: strings_of(&PYTHON_RULE_SINKS),
            sanitizers: strings_of(&PYTHON_RULE_SANITIZERS),
        }
    }

    /// Default JavaScript taint rules.
    pub fn javascript_defaults() -> (r: Self)
        ensures
            views(r.sources@) == str_views(JS_RULE_SOURCES@),
            views(r.sinks@) == str_views(JS_RULE_SINKS@),
            views(r.sanitizers@) == str_views(JS_RULE_SANITIZERS@),
    {
        TaintRuleSet {
            sources: strings_of(&JS_RULE_SOURCES),
            sinks: strings_of(&JS_RULE_SINKS),
            sanitizers: strings_of(&JS_RULE_SANITIZERS),
        }
    }

    /// Merges another rule set into this one: additive, no new duplicates.
    pub fn merge(&mut self, other: &TaintRuleSet)
        ensures
            views(final(self).sources@) == merge_list(views(old(self).sources@), views(other.sources@)),
            views(final(self).sinks@) == merge_list(views(old(self).sinks@), views(other.sinks@)),
            views(final(self).sanitizers@) == merge_list(
                views(old(self).sanitizers@),
                views(other.sanitizers@),
            ),
    {
        merge_into(&mut self.sources, &other.sources);
        merge_into(&mut self.sinks, &other.sinks);
        merge_into(&mut self.sanitizers, &other.sanitizers);
    }

    /// Whether some source pattern occurs in the function name `name`.
    pub fn is_source(&self, name: &str) -> (b: bool)
        ensures
            b == contains_any(name@, views(self.sources@)),
    {
        let nv = chars_of(name);
        contains_any_exec(&nv, &self.sources)
    }

    /// Whether some sink pattern occurs in the function name `name`.
    pub fn is_sink(&self, name: &str) -> (b: bool)
        ensures
            b == contains_any(name@, views(self.sinks@)),
    {
        let nv = chars_of(name);
        contains_any_exec(&nv, &self.sinks)
    }

    /// Whether some sanitizer pattern occurs in the function name `name`.
    pub fn is_sanitizer(&self, name: &str) -> (b: bool)
        ensures
            b == contains_any(name@, views(self.sanitizers@)),
    {
        let nv = chars_of(name);
        contains_any_exec(&nv, &self.sanitizers)
    }
}

/// Merging keeps every existing rule, adds every rule of the other set, and
/// adds nothing twice that was not already twice.
pub proof fn law_merge(a: Seq<Seq<char>>, b: Seq<Seq<char>>)
    ensures
        merge_list(a, b).len() >= a.len(),
        merge_list(a, b).subrange(0, a.len() as int) == a,
        forall|i: int| 0 <= i < b.len() ==> merge_list(a, b).contains(#[trigger] b[i]),
        forall|x: Seq<char>| #[trigger] merge_list(a, b).contains(x) ==> a.contains(x) || b.contains(
            x,
        ),
    decreases b.len(),
{
    if b.len() > 0 {
        let a2 = if a.contains(b[0]) { a } else { a.push(b[0]) };
        law_merge(a2, b.drop_first());
        assert(a2.subrange(0, a.len() as int) =~= a);
        assert(merge_list(a, b).subrange(0, a.len() as int) =~= merge_list(a2, b.drop_first()).subrange(
            0,
            a2.len() as int,
        ).subrange(0, a.len() as int));
        assert forall|i: int| 0 <= i < b.len() implies merge_list(a, b).contains(#[trigger] b[i]) by {
            if i == 0 {
                let m = merge_list(a2, b.drop_first());
                if a.contains(b[0]) {
                    let k = choose|k: int| 0 <= k < a.len() && a[k] == b[0];
                    assert(m[k] == a2[k]);
                } else {
                    assert(m[a.len() as int] == a2[a.len() as int]);
                }
            } else {
                assert(b.drop_first()[i - 1] == b[i]);
            }
        }
        assert forall|x: Seq<char>| #[trigger] merge_list(a, b).contains(x) implies a.contains(x)
            || b.contains(x) by {
            if a2.contains(x) && !a.contains(x) {
                assert(b[0] == x);
            }
            if b.drop_first().contains(x) {
                let k = choose|k: int| 0 <= k < b.drop_first().len() && b.drop_first()[k] == x;
                assert(b[k + 1] == x);
            }
        }
    }
}

/// Merging never lists a pattern twice: a list without repeats stays
/// without repeats, whatever is merged into it.
pub proof fn law_merge_no_repeats(a: Seq<Seq<char>>, b: Seq<Seq<char>>)
    requires
        a.no_duplicates(),
    ensures
        merge_list(a, b).no_duplicates(),
    decreases b.len(),
{
    if b.len() > 0 {
        let a2 = if a.contains(b[0]) { a } else { a.push(b[0]) };
        if !a.contains(b[0]) {
            assert forall|i: int, j: int| 0 <= i < a2.len() && 0 <= j < a2.len() && i != j implies a2[i] != a2[j] by {
                if i == a.len() {
                    assert(a[j] == a2[j]);
                } else if j == a.len() {
                    assert(a[i] == a2[i]);
                }
            }
        }
        law_merge_no_repeats(a2, b.drop_first());
    }
}

/// Merging patterns that are all listed already changes nothing.
proof fn lemma_merge_contained(a: Seq<Seq<char>>, b: Seq<Seq<char>>)
    requires
        forall|i: int| 0 <= i < b.len() ==> a.contains(#[trigger] b[i]),
    ensures
        merge_list(a, b) == a,
    decreases b.len(),
{
    if b.len() > 0 {
        assert(a.contains(b[0]));
        assert forall|i: int| 0 <= i < b.drop_first().len() implies a.contains(#[trigger] b.drop_first()[i]) by {
            assert(b.drop_first()[i] == b[i + 1]);
        }
        lemma_merge_contained(a, b.drop_first());
    }
}

/// Merging the same patterns a second time changes nothing.
pub proof fn law_merge_twice(a: Seq<Seq<char>>, b: Seq<Seq<char>>)
    ensures
        merge_list(merge_list(a, b), b) == merge_list(a, b),
{
    law_merge(a, b);
    lemma_merge_contained(merge_list(a, b), b);
}

} // verus!
