//! Runtime-extensible taint specification store.
use vstd::prelude::*;
use crate::strmap::StrSet;
use crate::text::str_views;

verus! {

/// Python taint sources.
pub const PY_SOURCES: [&'static str; 8] = [
    "request.args",
    "request.form",
    "request.data",
    "request.json",
    "request.get_json",
    "sys.argv",
    "input",
    "os.environ",
];

/// Python taint sinks.
pub const PY_SINKS: [&'static str; 10] = [
    "execute",
    "executemany",
    "os.system",
    "os.popen",
    "subprocess.call",
    "subprocess.run",
    "eval",
    "exec",
    "open",
    "render_template_string",
];

/// Python sanitizers.
pub const PY_SANITIZERS: [&'static str; 7] = [
    "escape",
    "quote",
    "sanitize",
    "clean",
    "parameterize",
    "bleach.clean",
    "markupsafe.escape",
];

/// JavaScript taint sources.
pub const JS_SOURCES: [&'static str; 6] = [
    "req.query",
    "req.params",
    "req.body",
    "process.argv",
    "process.env",
    "window.location",
];

/// JavaScript taint sinks.
pub const JS_SINKS: [&'static str; 6] = ["eval", "exec", "child_process", "fs.writeFile", "res.send", "db.query"];

/// JavaScript sanitizers.
pub const JS_SANITIZERS: [&'static str; 4] = ["escape", "encodeURI", "sanitize", "DOMPurify"];

/// Go taint sources.
pub const GO_SOURCES: [&'static str; 5] = ["r.URL.Query", "r.FormValue", "r.Body", "os.Args", "os.Getenv"];

/// Go taint sinks.
pub const GO_SINKS: [&'static str; 5] = ["exec.Command", "db.Query", "db.Exec", "http.Get", "fmt.Fprintf"];

/// Go sanitizers.
pub const GO_SANITIZERS: [&'static str; 3] = ["html.EscapeString", "url.QueryEscape", "strconv"];

/// The set of a list of literals.
pub open spec fn lit_set(lits: Seq<&str>) -> Set<Seq<char>> {
    str_views(lits).to_set()
}

/// Inserts every literal into the set.
fn insert_all(set: &mut StrSet, lits: &[&str])
    ensures
        final(set)@ == old(set)@.union(lit_set(lits@)),
{
    let mut i: usize = 0;
    while i < lits.len()
        invariant
            i <= lits@.len(),
            set@ == old(set)@.union(lit_set(lits@.take(i as int))),
        decreases lits@.len() - i,
    {
        set.insert(String::from_str(lits[i]));
        proof {
            assert(str_views(lits@.take(i + 1)) =~= str_views(lits@.take(i as int)).push(lits@[i as int]@));
            assert forall|x: Seq<char>| lit_set(lits@.take(i + 1)).contains(x) == (lit_set(lits@.take(i as int)).contains(x) || x == lits@[i as int]@) by {
                let a = str_views(lits@.take(i as int));
                if a.push(lits@[i as int]@).contains(x) && x != lits@[i as int]@ {
                    let k = choose|k: int| 0 <= k < a.push(lits@[i as int]@).len() && a.push(lits@[i as int]@)[k] == x;
                    assert(a[k] == x);
                }
                if a.contains(x) {
                    let k = choose|k: int| 0 <= k < a.len() && a[k] == x;
                    assert(a.push(lits@[i as int]@)[k] == x);
                }
                if x == lits@[i as int]@ {
                    assert(a.push(lits@[i as int]@)[a.len() as int] == x);
                }
            }
            assert(set@ =~= old(set)@.union(lit_set(lits@.take(i + 1))));
        }
        i = i + 1;
    }
    assert(lits@.take(lits@.len() as int) =~= lits@);
}

/// Runtime-extensible store of taint sources, sinks and sanitizers.
pub struct TaintSpecStore {
    sources: StrSet,
    sinks: StrSet,
    sanitizers: StrSet,
}

impl TaintSpecStore {
    /// The source names.
    pub closed spec fn source_set(&self) -> Set<Seq<char>> {
        self.sources@
    }

    /// The sink names.
    pub closed spec fn sink_set(&self) -> Set<Seq<char>> {
        self.sinks@
    }

    /// The sanitizer names.
    pub closed spec fn sanitizer_set(&self) -> Set<Seq<char>> {
        self.sanitizers@
    }

    /// An empty store.
    pub fn new() -> (s: Self)
        ensures
            s.source_set() == Set::<Seq<char>>::empty(),
            s.sink_set() == Set::<Seq<char>>::empty(),
            s.sanitizer_set() == Set::<Seq<char>>::empty(),
    {
        TaintSpecStore { sources: StrSet::new(), sinks: StrSet::new(), sanitizers: StrSet::new() }
    }

    /// A store with the given defaults.
    fn with_defaults(srcs: &[&str], snks: &[&str], sans: &[&str]) -> (s: Self)
        ensures
            s.source_set() == lit_set(srcs@),
            s.sink_set() == lit_set(snks@),
            s.sanitizer_set() == lit_set(sans@),
    {
        let mut store = Self::new();
        insert_all(&mut store.sources, srcs);
        insert_all(&mut store.sinks, snks);
        insert_all(&mut store.sanitizers, sans);
        assert(store.sources@ =~= lit_set(srcs@));
        assert(store.sinks@ =~= lit_set(snks@));
        assert(store.sanitizers@ =~= lit_set(sans@));
        store
    }

    /// A store pre-loaded with the Python defaults.
    pub fn python_defaults() -> (s: Self)
        ensures
            s.source_set() == lit_set(PY_SOURCES@),
            s.sink_set() == lit_set(PY_SINKS@),
            s.sanitizer_set() == lit_set(PY_SANITIZERS@),
    {
        Self::with_defaults(&PY_SOURCES, &PY_SINKS, &PY_SANITIZERS)
    }

    /// A store pre-loaded with the JavaScript defaults.
    pub fn javascript_defaults() -> (s: Self)
        ensures
            s.source_set() == lit_set(JS_SOURCES@),
            s.sink_set() == lit_set(JS_SINKS@),
            s.sanitizer_set() == lit_set(JS_SANITIZERS@),
    {
        Self::with_defaults(&JS_SOURCES, &JS_SINKS, &JS_SANITIZERS)
    }

    /// A store pre-loaded with the Go defaults.
    pub fn go_defaults() -> (s: Self)
        ensures
            s.source_set() == lit_set(GO_SOURCES@),
            s.sink_set() == lit_set(GO_SINKS@),
            s.sanitizer_set() == lit_set(GO_SANITIZERS@),
    {
        Self::with_defaults(&GO_SOURCES, &GO_SINKS, &GO_SANITIZERS)
    }

    /// Adds a source name.
    pub fn add_source(&mut self, name: String)
        ensures
            final(self).source_set() == old(self).source_set().insert(name@),
            final(self).sink_set() == old(self).sink_set(),
            final(self).sanitizer_set() == old(self).sanitizer_set(),
    {
        self.sources.insert(name);
    }

    /// Adds a sink name.
    pub fn add_sink(&mut self, name: String)
        ensures
            final(self).sink_set() == old(self).sink_set().insert(name@),
            final(self).source_set() == old(self).source_set(),
            final(self).sanitizer_set() == old(self).sanitizer_set(),
    {
        self.sinks.insert(name);
    }

    /// Adds a sanitizer name.
    pub fn add_sanitizer(&mut self, name: String)
        ensures
            final(self).sanitizer_set() == old(self).sanitizer_set().insert(name@),
            final(self).source_set() == old(self).source_set(),
            final(self).sink_set() == old(self).sink_set(),
    {
        self.sanitizers.insert(name);
    }

    /// Whether `name` is a source (exact match).
    pub fn is_source(&self, name: &str) -> (b: bool)
        ensures
            b == self.source_set().contains(name@),
    {
        self.sources.contains(name)
    }

    /// Whether `name` is a sink (exact match).
    pub fn is_sink(&self, name: &str) -> (b: bool)
        ensures
            b == self.sink_set().contains(name@),
    {
        self.sinks.contains(name)
    }

    /// Whether `name` is a sanitizer (exact match).
    pub fn is_sanitizer(&self, name: &str) -> (b: bool)
        ensures
            b == self.sanitizer_set().contains(name@),
    {
        self.sanitizers.contains(name)
    }

    /// The source names.
    pub fn sources(&self) -> (s: &StrSet)
        ensures
            s@ == self.source_set(),
    {
        &self.sources
    }

    /// The sink names.
    pub fn sinks(&self) -> (s: &StrSet)
        ensures
            s@ == self.sink_set(),
    {
        &self.sinks
    }

    /// The sanitizer names.
    pub fn sanitizers(&self) -> (s: &StrSet)
        ensures
            s@ == self.sanitizer_set(),
    {
        &self.sanitizers
    }

    /// Total number of specs (sources + sinks + sanitizers).
    pub fn len(&self) -> (n: usize)
        requires
            self.source_set().len() + self.sink_set().len() + self.sanitizer_set().len() <= usize::MAX,
        ensures
            n == self.source_set().len() + self.sink_set().len() + self.sanitizer_set().len(),
            self.source_set().finite(),
            self.sink_set().finite(),
            self.sanitizer_set().finite(),
    {
        self.sources.len() + self.sinks.len() + self.sanitizers.len()
    }

    /// Whether the store holds no spec at all.
    pub fn is_empty(&self) -> (b: bool)
        ensures
            b == (self.source_set().len() == 0 && self.sink_set().len() == 0
                && self.sanitizer_set().len() == 0),
    {
        self.sources.is_empty() && self.sinks.is_empty() && self.sanitizers.is_empty()
    }

    /// Same as [`TaintSpecStore::new`].
    pub fn default() -> (s: Self)
        ensures
            s.source_set() == Set::<Seq<char>>::empty(),
            s.sink_set() == Set::<Seq<char>>::empty(),
            s.sanitizer_set() == Set::<Seq<char>>::empty(),
    {
        Self::new()
    }
}

/// Adding a name makes it a member, and adding it again changes nothing.
pub proof fn law_add_idempotent(s: Set<Seq<char>>, name: Seq<char>)
    ensures
        s.insert(name).contains(name),
        s.insert(name).insert(name) == s.insert(name),
{
    assert(s.insert(name).insert(name) =~= s.insert(name));
}

} // verus!
