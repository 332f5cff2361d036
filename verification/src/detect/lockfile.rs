//! Dependency lists read from lock files and pinned requirement lists.
use vstd::prelude::*;
use crate::text::{
    before_char, before_char_exec, chars_of, find, find_exec, lemma_find, lemma_rfind_from, lines, occurs_at,
    lines_of, pair, push_all, push_str, rfind, rfind_exec, slice_chars, string_of, trim,
    trim_chars,
};
use crate::document::{
    field, get_field, members_of, object_field, opt_view, or_empty, parse_json_document,
    parse_toml_document, str_field, text_field, json_document, toml_document, DocValue,
};

verus! {

/// A dependency extracted from a lock file.
#[derive(Debug, Clone, PartialEq, Eq)]
pub struct Dependency {
    pub name: String,
    pub version: String,
    /// Package URL (PURL) for SBOM generation.
    pub purl: String,
    /// Source URL or registry, where known.
    pub source_url: Option<String>,
    /// Integrity hash, where known.
    pub checksum: Option<String>,
    /// SPDX license expression, where known.
    pub license: Option<String>,
}

// ───────────────────────── model ─────────────────────────

/// Position of the first version operator of a requirement, trying `==`,
/// `>=`, `~=`, `<=` and `!=` in that order.
pub open spec fn requirement_op_pos(b: Seq<char>) -> Option<int> {
    match find(b, seq!['=', '=']) {
        Some(p) => Some(p),
        None => match find(b, seq!['>', '=']) {
            Some(p) => Some(p),
            None => match find(b, seq!['~', '=']) {
                Some(p) => Some(p),
                None => match find(b, seq!['<', '=']) {
                    Some(p) => Some(p),
                    None => find(b, seq!['!', '=']),
                },
            },
        },
    }
}

/// The `(name, version)` a requirement line names, or `None` for blank,
/// comment and option lines and for lines without a name.
pub open spec fn requirement_entry(line: Seq<char>) -> Option<(Seq<char>, Seq<char>)> {
    let t = trim(line);
    if t.len() == 0 || t[0] == '#' || t[0] == '-' {
        None
    } else {
        let a = trim(before_char(t, '#'));
        let b = trim(before_char(a, ';'));
        let (raw_name, version) = match requirement_op_pos(b) {
            Some(p) => (b.subrange(0, p), trim(b.subrange(p + 2, b.len() as int))),
            None => (b, Seq::<char>::empty()),
        };
        let name = trim(before_char(trim(raw_name), '['));
        if name.len() == 0 {
            None
        } else {
            Some((name, version))
        }
    }
}

/// The entries of a list of lines, in order.
pub open spec fn requirement_entries(ls: Seq<Seq<char>>) -> Seq<(Seq<char>, Seq<char>)>
    decreases ls.len(),
{
    if ls.len() == 0 {
        Seq::empty()
    } else {
        let prev = requirement_entries(ls.drop_last());
        match requirement_entry(ls.last()) {
            Some(e) => prev.push(e),
            None => prev,
        }
    }
}

/// PyPI package URL of a name and version (no `@version` when the version is empty).
pub open spec fn pypi_purl(name: Seq<char>, version: Seq<char>) -> Seq<char> {
    if version.len() == 0 {
        "pkg:pypi/"@ + name
    } else {
        "pkg:pypi/"@ + name + "@"@ + version
    }
}

/// `d` is the PyPI dependency for the entry `(name, version)`.
pub open spec fn is_pypi_dependency(d: Dependency, e: (Seq<char>, Seq<char>)) -> bool {
    &&& d.name@ == e.0
    &&& d.version@ == e.1
    &&& d.purl@ == pypi_purl(e.0, e.1)
    &&& d.source_url is None
    &&& d.checksum is None
    &&& d.license is None
}

// ───────────────────────── code ─────────────────────────

/// Position of the first version operator of `b` (see [`requirement_op_pos`]).
fn requirement_op_pos_exec(b: &[char]) -> (r: Option<usize>)
    ensures
        match r {
            Some(p) => requirement_op_pos(b@) == Some(p as int),
            None => requirement_op_pos(b@) is None,
        },
{
    let ops = [pair('=', '='), pair('>', '='), pair('~', '='), pair('<', '='), pair('!', '=')];
    if let Some(p) = find_exec(b, &ops[0]) {
        return Some(p);
    }
    if let Some(p) = find_exec(b, &ops[1]) {
        return Some(p);
    }
    if let Some(p) = find_exec(b, &ops[2]) {
        return Some(p);
    }
    if let Some(p) = find_exec(b, &ops[3]) {
        return Some(p);
    }
    find_exec(b, &ops[4])
}

/// The `(name, version)` of one requirement line (see [`requirement_entry`]).
fn requirement_line(line: &[char]) -> (r: Option<(Vec<char>, Vec<char>)>)
    ensures
        match r {
            Some((n, v)) => requirement_entry(line@) == Some((n@, v@)),
            None => requirement_entry(line@) is None,
        },
{
    let t = trim_chars(line);
    if t.len() == 0 || t[0] == '#' || t[0] == '-' {
        return None;
    }
    let a = trim_chars(&before_char_exec(&t, '#'));
    let b = trim_chars(&before_char_exec(&a, ';'));
    let (raw_name, version) = match requirement_op_pos_exec(&b) {
        Some(p) => {
            proof {
                lemma_find(b@, seq!['=', '=']);
                lemma_find(b@, seq!['>', '=']);
                lemma_find(b@, seq!['~', '=']);
                lemma_find(b@, seq!['<', '=']);
                lemma_find(b@, seq!['!', '=']);
            }
            (slice_chars(&b, 0, p), trim_chars(&slice_chars(&b, p + 2, b.len())))
        },
        None => (b.clone(), Vec::new()),
    };
    proof {
        assert(raw_name@ == b@ || requirement_op_pos(b@) is Some);
    }
    let name = trim_chars(&before_char_exec(&trim_chars(&raw_name), '['));
    if name.len() == 0 {
        None
    } else {
        Some((name, version))
    }
}

/// The dependency record for one requirement entry.
fn pypi_dependency(name: &[char], version: &[char]) -> (d: Dependency)
    ensures
        is_pypi_dependency(d, (name@, version@)),
{
    let mut purl: Vec<char> = Vec::new();
    push_str(&mut purl, "pkg:pypi/");
    push_all(&mut purl, name);
    if version.len() > 0 {
        push_str(&mut purl, "@");
        push_all(&mut purl, version);
    }
    Dependency {
        name: string_of(name),
        version: string_of(version),
        purl: string_of(&purl),
        source_url: None,
        checksum: None,
        license: None,
    }
}

/// Parses a `requirements.txt` (pip freeze format): one dependency per line of
/// the form `name`, `name==version`, `name>=version`, `name~=version`,
/// `name<=version` or `name!=version`; extras (`name[extra]`), inline comments
/// and environment markers (`; ...`) are dropped; blank lines, comments and
/// option lines (`-r`, `--...`) are skipped.
pub fn parse_requirements_str(content: &str) -> (deps: Vec<Dependency>)
    ensures
        deps.len() == requirement_entries(lines(content@)).len(),
        forall|i: int|
            0 <= i < deps.len() ==> is_pypi_dependency(
                #[trigger] deps@[i],
                requirement_entries(lines(content@))[i],
            ),
{
    let cs = chars_of(content);
    let ls = lines_of(&cs);
    let ghost lv = ls@.map_values(|l: Vec<char>| l@);
    let mut deps: Vec<Dependency> = Vec::new();
    let mut i: usize = 0;
    assert(lv.take(0) =~= Seq::<Seq<char>>::empty());
    while i < ls.len()
        invariant
            i <= ls@.len(),
            lv == ls@.map_values(|l: Vec<char>| l@),
            lv == lines(content@),
            deps.len() == requirement_entries(lv.take(i as int)).len(),
            forall|j: int|
                0 <= j < deps.len() ==> is_pypi_dependency(
                    #[trigger] deps@[j],
                    requirement_entries(lv.take(i as int))[j],
                ),
        decreases ls@.len() - i,
    {
        assert(lv.take(i + 1).drop_last() =~= lv.take(i as int));
        assert(lv.take(i + 1).last() == ls@[i as int]@);
        match requirement_line(&ls[i]) {
            Some((n, v)) => {
                let d = pypi_dependency(&n, &v);
                deps.push(d);
            },
            None => {},
        }
        i = i + 1;
    }
    assert(lv.take(ls@.len() as int) =~= lv);
    deps
}


// ───────────────────────── Cargo.lock ─────────────────────────

/// A `[[package]]` entry of a Cargo.lock: a table with string `name` and
/// `version` and, where present, string `source` and `checksum`.
pub open spec fn valid_cargo_package(p: DocValue) -> bool {
    &&& p is Object
    &&& str_field(p, "name"@) is Some
    &&& str_field(p, "version"@) is Some
    &&& (field(p, "source"@) is None || str_field(p, "source"@) is Some)
    &&& (field(p, "checksum"@) is None || str_field(p, "checksum"@) is Some)
}

/// The `package` entries of a Cargo.lock document (none where the key is
/// absent); `None` where the document or the key has the wrong shape.
pub open spec fn cargo_lock_packages(doc: DocValue) -> Option<Seq<DocValue>> {
    if !(doc is Object) {
        None
    } else {
        match field(doc, "package"@) {
            None => Some(Seq::empty()),
            Some(DocValue::Array(a)) => Some(a@),
            Some(_) => None,
        }
    }
}

/// The document reads as a Cargo.lock: the right shape, every entry valid.
pub open spec fn cargo_lock_valid(doc: DocValue) -> bool {
    match cargo_lock_packages(doc) {
        Some(ps) => forall|i: int| 0 <= i < ps.len() ==> valid_cargo_package(#[trigger] ps[i]),
        None => false,
    }
}

/// Cargo package URL of a name and version.
pub open spec fn cargo_purl(name: Seq<char>, version: Seq<char>) -> Seq<char> {
    "pkg:cargo/"@ + name + "@"@ + version
}

/// `d` is the dependency of the Cargo.lock entry `p`.
pub open spec fn is_cargo_dependency(d: Dependency, p: DocValue) -> bool {
    &&& str_field(p, "name"@) == Some(d.name@)
    &&& str_field(p, "version"@) == Some(d.version@)
    &&& d.purl@ == cargo_purl(d.name@, d.version@)
    &&& opt_view(d.source_url) == str_field(p, "source"@)
    &&& opt_view(d.checksum) == str_field(p, "checksum"@)
    &&& d.license is None
}

/// `deps` lists the entries of the Cargo.lock `doc`, one each, in order.
pub open spec fn lists_cargo_lock(deps: Seq<Dependency>, doc: DocValue) -> bool {
    &&& cargo_lock_packages(doc) is Some
    &&& deps.len() == cargo_lock_packages(doc)->0.len()
    &&& forall|i: int|
        0 <= i < deps.len() ==> is_cargo_dependency(
            #[trigger] deps[i],
            cargo_lock_packages(doc)->0[i],
        )
}

/// The optional string member `key` of `p`: `Ok(None)` where absent,
/// `Err(())` where present but not a string.
fn optional_text(p: &DocValue, key: &str) -> (r: Result<Option<String>, ()>)
    ensures
        match r {
            Ok(o) => opt_view(o) == str_field(*p, key@) && (field(*p, key@) is None || str_field(
                *p,
                key@,
            ) is Some),
            Err(_) => field(*p, key@) is Some && str_field(*p, key@) is None,
        },
{
    match get_field(p, key) {
        None => Ok(None),
        Some(DocValue::Str(s)) => Ok(Some(s.clone())),
        Some(_) => Err(()),
    }
}

/// The dependency of one Cargo.lock entry, or `None` where the entry is invalid.
fn cargo_dependency(p: &DocValue) -> (r: Option<Dependency>)
    ensures
        match r {
            Some(d) => valid_cargo_package(*p) && is_cargo_dependency(d, *p),
            None => !valid_cargo_package(*p),
        },
{
    match p {
        DocValue::Object(_) => {},
        _ => return None,
    }
    let name = match text_field(p, "name") {
        Some(n) => n,
        None => return None,
    };
    let version = match text_field(p, "version") {
        Some(v) => v,
        None => return None,
    };
    let source = match optional_text(p, "source") {
        Ok(o) => o,
        Err(_) => return None,
    };
    let checksum = match optional_text(p, "checksum") {
        Ok(o) => o,
        Err(_) => return None,
    };
    let mut purl: Vec<char> = Vec::new();
    push_str(&mut purl, "pkg:cargo/");
    push_str(&mut purl, name.as_str());
    push_str(&mut purl, "@");
    push_str(&mut purl, version.as_str());
    Some(
        Dependency {
            name,
            version,
            purl: string_of(&purl),
            source_url: source,
            checksum,
            license: None,
        },
    )
}

/// The dependencies that a parsed Cargo.lock lists, one per `[[package]]`
/// entry, in order; an error where the document does not have that shape.
pub fn cargo_lock_dependencies(doc: &DocValue) -> (r: Result<Vec<Dependency>, String>)
    ensures
        r is Ok <==> cargo_lock_valid(*doc),
        r matches Ok(deps) ==> lists_cargo_lock(deps@, *doc),
{
    match doc {
        DocValue::Object(_) => {},
        _ => return Err(String::from_str("parse Cargo.lock: not a table")),
    }
    let empty: Vec<DocValue> = Vec::new();
    let ps: &Vec<DocValue> = match get_field(doc, "package") {
        None => &empty,
        Some(DocValue::Array(a)) => a,
        Some(_) => return Err(String::from_str("parse Cargo.lock: `package` is not an array")),
    };
    assert(cargo_lock_packages(*doc) == Some(ps@));
    let mut deps: Vec<Dependency> = Vec::new();
    let mut i: usize = 0;
    while i < ps.len()
        invariant
            i <= ps@.len(),
            cargo_lock_packages(*doc) == Some(ps@),
            deps.len() == i,
            forall|j: int| 0 <= j < i ==> valid_cargo_package(#[trigger] ps@[j]),
            forall|j: int| 0 <= j < i ==> is_cargo_dependency(#[trigger] deps@[j], ps@[j]),
        decreases ps@.len() - i,
    {
        match cargo_dependency(&ps[i]) {
            Some(d) => deps.push(d),
            None => {
                assert(cargo_lock_packages(*doc)->0[i as int] == ps@[i as int]);
                assert(!valid_cargo_package(cargo_lock_packages(*doc)->0[i as int]));
                return Err(String::from_str("parse Cargo.lock: invalid package entry"));
            },
        }
        i = i + 1;
    }
    Ok(deps)
}

/// Parses the text of a Cargo.lock into its dependencies (`pkg:cargo/` URLs,
/// source and checksum where given). An error where the text is not TOML or
/// not shaped like a Cargo.lock.
pub fn parse_cargo_lock_str(content: &str) -> (r: Result<Vec<Dependency>, String>)
    ensures
        r is Ok <==> (toml_document(content@) matches Some(doc) && cargo_lock_valid(doc)),
        r matches Ok(deps) ==> lists_cargo_lock(deps@, toml_document(content@)->0),
{
    match parse_toml_document(content) {
        Ok(doc) => cargo_lock_dependencies(&doc),
        Err(e) => {
            let mut msg = String::from_str("parse Cargo.lock: ");
            msg.append(e.as_str());
            Err(msg)
        },
    }
}

// ───────────────────────── package-lock.json ─────────────────────────

/// The name a v2/v3 `packages` entry is listed under: its own `name` string,
/// else the part of its key after the last `node_modules/`, else empty.
pub open spec fn package_entry_name(key: Seq<char>, pkg: DocValue) -> Seq<char> {
    match str_field(pkg, "name"@) {
        Some(n) => n,
        None => match rfind(key, "node_modules/"@) {
            Some(p) => key.subrange(p + "node_modules/"@.len(), key.len() as int),
            None => Seq::empty(),
        },
    }
}

/// `(name, entry)` of the `packages` members that yield a dependency: all but
/// the root (empty key) and those without a name, in order.
pub open spec fn package_listing(s: Seq<(String, DocValue)>) -> Seq<(Seq<char>, DocValue)>
    decreases s.len(),
{
    if s.len() == 0 {
        Seq::empty()
    } else {
        let prev = package_listing(s.drop_last());
        let (k, p) = s.last();
        if k@.len() > 0 && package_entry_name(k@, p).len() > 0 {
            prev.push((package_entry_name(k@, p), p))
        } else {
            prev
        }
    }
}

/// `(name, entry)` of every member of a v1 `dependencies` object, in order.
pub open spec fn dependency_listing(s: Seq<(String, DocValue)>) -> Seq<(Seq<char>, DocValue)> {
    s.map_values(|e: (String, DocValue)| (e.0@, e.1))
}

/// The entries a package-lock lists and whether their licenses are read:
/// the v2/v3 `packages` object where there is one, else the v1
/// `dependencies` object, else nothing.
pub open spec fn lock_listing(doc: DocValue) -> (Seq<(Seq<char>, DocValue)>, bool) {
    match members_of(field(doc, "packages"@)) {
        Some(m) => (package_listing(m), true),
        None => match members_of(field(doc, "dependencies"@)) {
            Some(m) => (dependency_listing(m), false),
            None => (Seq::empty(), false),
        },
    }
}

/// npm package URL of a name and version.
pub open spec fn npm_purl(name: Seq<char>, version: Seq<char>) -> Seq<char> {
    "pkg:npm/"@ + name + "@"@ + version
}

/// `d` is the npm dependency `name` that the object `info` describes (its
/// license read only where `with_license`).
pub open spec fn is_npm_dependency(
    d: Dependency,
    name: Seq<char>,
    info: DocValue,
    with_license: bool,
) -> bool {
    let version = or_empty(str_field(info, "version"@));
    &&& d.name@ == name
    &&& d.version@ == version
    &&& d.purl@ == npm_purl(name, version)
    &&& opt_view(d.source_url) == str_field(info, "resolved"@)
    &&& opt_view(d.checksum) == str_field(info, "integrity"@)
    &&& opt_view(d.license) == (if with_license {
        str_field(info, "license"@)
    } else {
        None
    })
}

/// `deps` are the dependencies of the listing `l`, one each, in order.
pub open spec fn lists_npm(
    deps: Seq<Dependency>,
    l: Seq<(Seq<char>, DocValue)>,
    with_license: bool,
) -> bool {
    &&& deps.len() == l.len()
    &&& forall|i: int|
        0 <= i < deps.len() ==> is_npm_dependency(#[trigger] deps[i], l[i].0, l[i].1, with_license)
}

/// The dependency `name` described by `info`.
fn npm_dependency(name: &[char], info: &DocValue, with_license: bool) -> (d: Dependency)
    ensures
        is_npm_dependency(d, name@, *info, with_license),
{
    let version = match text_field(info, "version") {
        Some(v) => v,
        None => String::from_str(""),
    };
    proof {
        reveal_strlit("");
    }
    let mut purl: Vec<char> = Vec::new();
    push_str(&mut purl, "pkg:npm/");
    push_all(&mut purl, name);
    push_str(&mut purl, "@");
    push_str(&mut purl, version.as_str());
    assert(version@ == or_empty(str_field(*info, "version"@)));
    let d = Dependency {
        name: string_of(name),
        version,
        purl: string_of(&purl),
        source_url: text_field(info, "resolved"),
        checksum: text_field(info, "integrity"),
        license: if with_license {
            text_field(info, "license")
        } else {
            None
        },
    };
    assert(d.purl@ == npm_purl(name@, d.version@));
    d
}

/// The name of one `packages` entry (see [`package_entry_name`]).
fn entry_name(key: &String, pkg: &DocValue) -> (r: Vec<char>)
    ensures
        r@ == package_entry_name(key@, *pkg),
{
    match text_field(pkg, "name") {
        Some(n) => chars_of(n.as_str()),
        None => {
            let kc = chars_of(key.as_str());
            let nm = chars_of("node_modules/");
            let klen = kc.len();
            match rfind_exec(&kc, &nm) {
                Some(p) => {
                    proof {
                        lemma_rfind_from(kc@, nm@, kc@.len() - nm@.len());
                        assert(rfind(kc@, nm@) == Some(p as int));
                        assert(occurs_at(kc@, nm@, p as int));
                        assert(p + nm@.len() <= kc@.len());
                    }
                    let start = p + nm.len();
                    slice_chars(&kc, start, klen)
                },
                None => Vec::new(),
            }
        },
    }
}

/// Dependencies of the members of a v2/v3 `packages` object.
fn packages_dependencies(m: &Vec<(String, DocValue)>) -> (deps: Vec<Dependency>)
    ensures
        lists_npm(deps@, package_listing(m@), true),
{
    let mut deps: Vec<Dependency> = Vec::new();
    let mut i: usize = 0;
    assert(m@.take(0) =~= Seq::<(String, DocValue)>::empty());
    while i < m.len()
        invariant
            i <= m@.len(),
            lists_npm(deps@, package_listing(m@.take(i as int)), true),
        decreases m@.len() - i,
    {
        assert(m@.take(i + 1).drop_last() =~= m@.take(i as int));
        assert(m@.take(i + 1).last() == m@[i as int]);
        let key = &m[i].0;
        let pkg = &m[i].1;
        let kc = chars_of(key.as_str());
        if kc.len() > 0 {
            let name = entry_name(key, pkg);
            if name.len() > 0 {
                let d = npm_dependency(&name, pkg, true);
                deps.push(d);
            }
        }
        i = i + 1;
    }
    assert(m@.take(m@.len() as int) =~= m@);
    deps
}

/// Dependencies of the members of a v1 `dependencies` object.
fn v1_dependencies(m: &Vec<(String, DocValue)>) -> (deps: Vec<Dependency>)
    ensures
        lists_npm(deps@, dependency_listing(m@), false),
{
    let mut deps: Vec<Dependency> = Vec::new();
    let mut i: usize = 0;
    while i < m.len()
        invariant
            i <= m@.len(),
            deps.len() == i,
            forall|j: int|
                0 <= j < i ==> is_npm_dependency(
                    #[trigger] deps@[j],
                    dependency_listing(m@)[j].0,
                    dependency_listing(m@)[j].1,
                    false,
                ),
        decreases m@.len() - i,
    {
        let kc = chars_of(m[i].0.as_str());
        let d = npm_dependency(&kc, &m[i].1, false);
        deps.push(d);
        i = i + 1;
    }
    deps
}

/// The dependencies that a parsed package-lock.json lists: from the v2/v3
/// `packages` object (keys are `node_modules/...` paths; the root entry and
/// entries without a name are skipped; licenses read) or, where there is
/// none, from the v1 `dependencies` object.
pub fn package_lock_dependencies(doc: &DocValue) -> (deps: Vec<Dependency>)
    ensures
        lists_npm(deps@, lock_listing(*doc).0, lock_listing(*doc).1),
{
    match object_field(doc, "packages") {
        Some(m) => packages_dependencies(m),
        None => match object_field(doc, "dependencies") {
            Some(m) => v1_dependencies(m),
            None => Vec::new(),
        },
    }
}

/// Parses the text of a package-lock.json (v1, v2 or v3) into its
/// dependencies (`pkg:npm/` URLs); an error where the text is not JSON.
pub fn parse_package_lock_str(content: &str) -> (r: Result<Vec<Dependency>, String>)
    ensures
        r is Ok <==> json_document(content@) is Some,
        r matches Ok(deps) ==> lists_npm(
            deps@,
            lock_listing(json_document(content@)->0).0,
            lock_listing(json_document(content@)->0).1,
        ),
{
    match parse_json_document(content) {
        Ok(doc) => Ok(package_lock_dependencies(&doc)),
        Err(e) => {
            let mut msg = String::from_str("parse package-lock.json: ");
            msg.append(e.as_str());
            Err(msg)
        },
    }
}

} // verus!
