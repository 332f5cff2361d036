//! Branch coverage read from coverage.py JSON reports.
use vstd::prelude::*;
use crate::document::{field, get_field, parse_json_document, json_document, DocValue};
use crate::git::{parse_i64, parse_i64_exec};
use crate::hash::fnv1a_hash;
use crate::index::java::file_id_of;
use crate::text::{chars_of, string_of, lines, lines_of, trim, contains, starts_with, contains_str, starts_with_str};
use crate::types::BranchId;

verus! {

// ───────────────────────── model ─────────────────────────

/// `path` relative to `root`, as `Path::strip_prefix` gives it on plain
/// slash-separated paths: an empty root leaves the path as it is, the root
/// itself becomes empty, a path under the root loses the root and the slash
/// after it, and any other path is kept whole. One trailing slash of the root
/// is ignored.
pub open spec fn strip_root(path: Seq<char>, root: Seq<char>) -> Seq<char> {
    let r = if root.len() > 1 && root.last() == '/' { root.drop_last() } else { root };
    if r.len() == 0 {
        path
    } else if path == r {
        Seq::empty()
    } else if r.len() < path.len() && path.take(r.len() as int) == r && r.last() == '/' {
        path.skip(r.len() as int)
    } else if r.len() < path.len() && path.take(r.len() as int) == r
        && path[r.len() as int] == '/' {
        path.skip(r.len() as int + 1)
    } else {
        path
    }
}

/// `i64::unsigned_abs`.
pub open spec fn unsigned_abs(x: i64) -> u64 {
    if x < 0 { (-(x as int)) as u64 } else { x as u64 }
}

/// The branch that a coverage.py arc `(from, to)` of file `fid` stands for:
/// line `|from|` (kept to its low 32 bits), column 0, direction 1 where the
/// arc leaves the function (`to < 0`) and 0 otherwise.
pub open spec fn arc_branch(fid: u64, from: i64, to: i64) -> BranchId {
    BranchId {
        file_id: fid,
        line: unsigned_abs(from) as u32,
        col: 0,
        direction: if to < 0 { 1u8 } else { 0u8 },
        discriminator: 0,
        condition_index: None,
    }
}

/// The branches of the arcs `arcs` of file `fid`, in order.
pub open spec fn arc_branches(fid: u64, arcs: Seq<(i64, i64)>) -> Seq<BranchId> {
    arcs.map_values(|a: (i64, i64)| arc_branch(fid, a.0, a.1))
}

/// The executed branches of an APEX coverage report, file after file.
pub open spec fn apex_branches(files: Seq<(String, Vec<(i64, i64)>)>, root: Seq<char>) -> Seq<BranchId>
    decreases files.len(),
{
    if files.len() == 0 {
        Seq::empty()
    } else {
        apex_branches(files.drop_last(), root) + arc_branches(
            file_id_of(strip_root(files.last().0@, root)),
            files.last().1@,
        )
    }
}


/// The integer that `serde_json::Value::as_i64` reads from a value, or 0
/// where it reads none.
pub open spec fn int_or_zero(v: DocValue) -> i64 {
    match v {
        DocValue::Number(t) => match parse_i64(t@) {
            Some(x) => x,
            None => 0,
        },
        _ => 0,
    }
}

/// The branch of one JSON arc of file `fid`: an array of exactly two values.
pub open spec fn json_arc_branch(fid: u64, arc: DocValue) -> Option<BranchId> {
    match arc {
        DocValue::Array(a) => if a@.len() == 2 {
            Some(arc_branch(fid, int_or_zero(a@[0]), int_or_zero(a@[1])))
        } else {
            None
        },
        _ => None,
    }
}

/// The branches of the JSON arcs `arcs` of file `fid`, skipping entries that
/// are not pairs.
pub open spec fn json_arc_branches(fid: u64, arcs: Seq<DocValue>) -> Seq<BranchId>
    decreases arcs.len(),
{
    if arcs.len() == 0 {
        Seq::empty()
    } else {
        json_arc_branches(fid, arcs.drop_last()) + match json_arc_branch(fid, arcs.last()) {
            Some(b) => seq![b],
            None => Seq::empty(),
        }
    }
}

/// The elements of the array member `key` of `v`, or none where it is not an
/// array.
pub open spec fn array_member(v: DocValue, key: Seq<char>) -> Seq<DocValue> {
    match field(v, key) {
        Some(DocValue::Array(a)) => a@,
        _ => Seq::empty(),
    }
}

/// The branches listed for one file: its executed arcs, then, where
/// `with_missing`, its missing arcs.
pub open spec fn file_branches(fid: u64, data: DocValue, with_missing: bool) -> Seq<BranchId> {
    json_arc_branches(fid, array_member(data, "executed_branches"@)) + if with_missing {
        json_arc_branches(fid, array_member(data, "missing_branches"@))
    } else {
        Seq::empty()
    }
}

/// The branches of all files, file after file.
pub open spec fn report_branches(files: Seq<(String, DocValue)>, root: Seq<char>, with_missing: bool) -> Seq<BranchId>
    decreases files.len(),
{
    if files.len() == 0 {
        Seq::empty()
    } else {
        report_branches(files.drop_last(), root, with_missing) + file_branches(
            file_id_of(strip_root(files.last().0@, root)),
            files.last().1,
            with_missing,
        )
    }
}

/// The file id and relative path of each file, in order.
pub open spec fn report_paths(files: Seq<(String, DocValue)>, root: Seq<char>) -> Seq<(u64, Seq<char>)> {
    files.map_values(|f: (String, DocValue)|
        (file_id_of(strip_root(f.0@, root)), strip_root(f.0@, root)))
}

/// Whether every member of `m` is an object.
pub open spec fn objects_only(m: Seq<(String, DocValue)>) -> bool {
    forall|i: int| 0 <= i < m.len() ==> (#[trigger] m[i]).1 is Object
}

/// The `files` of a coverage report, where the report has the expected
/// shape: an object whose `files` member (an empty object where absent) maps
/// each path to an object. Serde's struct reading also takes the report as an
/// array holding at most the `files` value.
pub open spec fn report_files(doc: DocValue) -> Option<Seq<(String, DocValue)>> {
    let files = match doc {
        DocValue::Object(m) => Some(crate::document::member(m@, "files"@)),
        DocValue::Array(a) => if a@.len() == 0 {
            Some(None)
        } else if a@.len() == 1 {
            Some(Some(a@[0]))
        } else {
            None
        },
        _ => None,
    };
    match files {
        Some(None) => Some(Seq::empty()),
        Some(Some(DocValue::Object(m))) => if objects_only(m@) {
            Some(m@)
        } else {
            None
        },
        _ => None,
    }
}

/// What reading a coverage.py JSON text gives: `None` where the text is not
/// JSON or not a report, else the files of the report.
pub open spec fn coverage_report(text: Seq<char>) -> Option<Seq<(String, DocValue)>> {
    match json_document(text) {
        Some(doc) => report_files(doc),
        None => None,
    }
}

// ───────────────────────── code ─────────────────────────

/// [`strip_root`] on characters.
pub fn strip_root_exec(path: &[char], root: &[char]) -> (r: Vec<char>)
    ensures
        r@ == strip_root(path@, root@),
{
    let n = root.len();
    let m = if n > 1 && root[n - 1] == '/' { n - 1 } else { n };
    let ghost r = if root@.len() > 1 && root@.last() == '/' { root@.drop_last() } else { root@ };
    assert(r =~= root@.take(m as int));
    if m == 0 {
        return copy_chars(path, 0);
    }
    let mut same = m <= path.len();
    let mut i: usize = 0;
    while same && i < m
        invariant
            m <= root@.len(),
            same ==> m <= path@.len(),
            i <= m,
            same ==> forall|j: int| 0 <= j < i ==> path@[j] == root@[j],
            !same ==> !(m <= path@.len() && path@.take(m as int) == root@.take(m as int)),
        decreases m - i + (if same { 1int } else { 0int }),
    {
        if path[i] != root[i] {
            assert(path@.take(m as int)[i as int] != root@.take(m as int)[i as int]);
            same = false;
        } else {
            i = i + 1;
        }
    }
    if same {
        assert(path@.take(m as int) =~= root@.take(m as int));
        if path.len() == m {
            assert(path@ =~= r);
            return Vec::new();
        }
        if root[m - 1] == '/' {
            return copy_chars(path, m);
        }
        if path[m] == '/' {
            return copy_chars(path, m + 1);
        }
        assert(path@ != r) by {
            assert(path@.len() != r.len());
        }
        copy_chars(path, 0)
    } else {
        assert(path@ != r) by {
            if path@ == r {
                assert(path@.take(m as int) =~= path@);
            }
        }
        copy_chars(path, 0)
    }
}

/// A copy of `v[from..]`.
fn copy_chars(v: &[char], from: usize) -> (r: Vec<char>)
    requires
        from <= v@.len(),
    ensures
        r@ == v@.skip(from as int),
{
    let mut r: Vec<char> = Vec::new();
    let mut i = from;
    while i < v.len()
        invariant
            from <= i <= v@.len(),
            r@ == v@.subrange(from as int, i as int),
        decreases v@.len() - i,
    {
        r.push(v[i]);
        assert(v@.subrange(from as int, i + 1) =~= v@.subrange(from as int, i as int).push(v@[i as int]));
        i = i + 1;
    }
    assert(v@.subrange(from as int, v@.len() as int) =~= v@.skip(from as int));
    r
}

/// The file id of `path` taken relative to `root`.
fn relative_file_id(path: &str, root: &[char]) -> (r: (u64, String))
    ensures
        r.1@ == strip_root(path@, root@),
        r.0 == file_id_of(r.1@),
{
    let pc = chars_of(path);
    let rel = string_of(strip_root_exec(&pc, root).as_slice());
    let fid = fnv1a_hash(rel.as_str());
    (fid, rel)
}


/// [`int_or_zero`].
fn int_or_zero_exec(v: &DocValue) -> (r: i64)
    ensures
        r == int_or_zero(*v),
{
    match v {
        DocValue::Number(t) => {
            let c = chars_of(t.as_str());
            match parse_i64_exec(&c) {
                Some(x) => x,
                None => 0,
            }
        },
        _ => 0,
    }
}

/// Appends the branches of the JSON arcs `arcs` of file `fid` to `out`.
fn push_json_arcs(fid: u64, arcs: &Vec<DocValue>, out: &mut Vec<BranchId>)
    ensures
        final(out)@ == old(out)@ + json_arc_branches(fid, arcs@),
{
    let ghost before = out@;
    let mut k: usize = 0;
    while k < arcs.len()
        invariant
            k <= arcs@.len(),
            out@ == before + json_arc_branches(fid, arcs@.take(k as int)),
        decreases arcs@.len() - k,
    {
        assert(arcs@.take(k + 1).drop_last() =~= arcs@.take(k as int));
        assert(arcs@.take(k + 1).last() == arcs@[k as int]);
        match &arcs[k] {
            DocValue::Array(a) => {
                if a.len() == 2 {
                    let from = int_or_zero_exec(&a[0]);
                    let to = int_or_zero_exec(&a[1]);
                    out.push(branch_of_arc(fid, from, to));
                }
            },
            _ => {},
        }
        assert(out@ =~= before + json_arc_branches(fid, arcs@.take(k + 1)));
        k = k + 1;
    }
    assert(arcs@.take(arcs@.len() as int) =~= arcs@);
}

/// Appends the branches of the array member `key` of `data` to `out`.
fn push_member_arcs(fid: u64, data: &DocValue, key: &str, out: &mut Vec<BranchId>)
    ensures
        final(out)@ == old(out)@ + json_arc_branches(fid, array_member(*data, key@)),
{
    match get_field(data, key) {
        Some(DocValue::Array(a)) => push_json_arcs(fid, a, out),
        _ => {
            assert(json_arc_branches(fid, Seq::<DocValue>::empty()) =~= Seq::<BranchId>::empty());
            assert(out@ =~= old(out)@ + json_arc_branches(fid, array_member(*data, key@)));
        },
    }
}

/// Whether every member of `m` is an object.
fn all_objects(m: &Vec<(String, DocValue)>) -> (b: bool)
    ensures
        b == objects_only(m@),
{
    let mut i: usize = 0;
    while i < m.len()
        invariant
            i <= m@.len(),
            forall|j: int| 0 <= j < i ==> (#[trigger] m@[j]).1 is Object,
        decreases m@.len() - i,
    {
        match &m[i].1 {
            DocValue::Object(_) => {},
            _ => {
                assert(!((m@[i as int]).1 is Object));
                return false;
            },
        }
        i = i + 1;
    }
    true
}

/// The files of a report document: `None` where it does not have the
/// expected shape, `Some(None)` where it lists no files.
fn report_files_exec(doc: &DocValue) -> (r: Option<Option<&Vec<(String, DocValue)>>>)
    ensures
        r is None <==> report_files(*doc) is None,
        r matches Some(None) ==> report_files(*doc) == Some(Seq::<(String, DocValue)>::empty()),
        r matches Some(Some(m)) ==> report_files(*doc) == Some(m@),
{
    let files: Option<&DocValue> = match doc {
        DocValue::Object(_) => get_field(doc, "files"),
        DocValue::Array(a) => {
            if a.len() == 0 {
                return Some(None);
            } else if a.len() == 1 {
                Some(&a[0])
            } else {
                return None;
            }
        },
        _ => {
            return None;
        },
    };
    match files {
        None => {
            Some(None)
        },
        Some(DocValue::Object(m)) => {
            if all_objects(m) {
                Some(Some(m))
            } else {
                None
            }
        },
        _ => None,
    }
}

/// [`arc_branch`].
fn branch_of_arc(fid: u64, from: i64, to: i64) -> (b: BranchId)
    ensures
        b == arc_branch(fid, from, to),
{
    let abs: u64 = if from < 0 { (0i128 - from as i128) as u64 } else { from as u64 };
    let direction: u8 = if to < 0 { 1 } else { 0 };
    BranchId::new(fid, abs as u32, 0, direction)
}

/// The executed branches of an APEX-format coverage report, given as its
/// files (path and executed arcs) in the order they are listed: each arc
/// becomes the branch [`arc_branch`] of the file's id, the FNV-1a hash of
/// its path relative to `repo_root`.
pub fn parse_apex_format(files: &Vec<(String, Vec<(i64, i64)>)>, repo_root: &str) -> (r: Vec<BranchId>)
    ensures
        r@ == apex_branches(files@, repo_root@),
{
    let root = chars_of(repo_root);
    let mut out: Vec<BranchId> = Vec::new();
    let mut i: usize = 0;
    while i < files.len()
        invariant
            i <= files@.len(),
            root@ == repo_root@,
            out@ == apex_branches(files@.take(i as int), repo_root@),
        decreases files@.len() - i,
    {
        assert(files@.take(i + 1).drop_last() =~= files@.take(i as int));
        let (fid, _rel) = relative_file_id(files[i].0.as_str(), &root);
        let arcs = &files[i].1;
        let ghost before = out@;
        let mut k: usize = 0;
        while k < arcs.len()
            invariant
                k <= arcs@.len(),
                out@ == before + arc_branches(fid, arcs@.take(k as int)),
            decreases arcs@.len() - k,
        {
            out.push(branch_of_arc(fid, arcs[k].0, arcs[k].1));
            assert(arc_branches(fid, arcs@.take(k + 1)) =~= arc_branches(fid, arcs@.take(k as int)).push(
                arc_branch(fid, arcs@[k as int].0, arcs@[k as int].1),
            ));
            k = k + 1;
        }
        assert(arcs@.take(arcs@.len() as int) =~= arcs@);
        assert(out@ =~= apex_branches(files@.take(i + 1), repo_root@));
        i = i + 1;
    }
    assert(files@.take(files@.len() as int) =~= files@);
    out
}

/// The branches of a parsed coverage.py report and the relative path of each
/// file with its id: `Err` where the document is not a report (see
/// [`report_files`]); else, file after file, the executed arcs and, where
/// `with_missing`, the missing arcs, as [`file_branches`] reads them.
pub fn coverage_from_document(doc: &DocValue, repo_root: &str, with_missing: bool)
    -> (r: Result<(Vec<BranchId>, Vec<(u64, String)>), String>)
    ensures
        match r {
            Ok((b, p)) => report_files(*doc) matches Some(f)
                && b@ == report_branches(f, repo_root@, with_missing)
                && p@.map_values(|e: (u64, String)| (e.0, e.1@)) == report_paths(f, repo_root@),
            Err(_) => report_files(*doc) is None,
        },
{
    match report_files_exec(doc) {
        None => Err(String::from_str("coverage report: unexpected document shape")),
        Some(None) => {
            let b: Vec<BranchId> = Vec::new();
            let p: Vec<(u64, String)> = Vec::new();
            assert(p@.map_values(|e: (u64, String)| (e.0, e.1@)) =~= report_paths(Seq::empty(), repo_root@));
            Ok((b, p))
        },
        Some(Some(files)) => {
            let root = chars_of(repo_root);
            let mut out: Vec<BranchId> = Vec::new();
            let mut paths: Vec<(u64, String)> = Vec::new();
            let mut i: usize = 0;
            while i < files.len()
                invariant
                    i <= files@.len(),
                    root@ == repo_root@,
                    out@ == report_branches(files@.take(i as int), repo_root@, with_missing),
                    paths@.map_values(|e: (u64, String)| (e.0, e.1@))
                        == report_paths(files@.take(i as int), repo_root@),
                decreases files@.len() - i,
            {
                assert(files@.take(i + 1).drop_last() =~= files@.take(i as int));
                assert(files@.take(i + 1).last() == files@[i as int]);
                let (fid, rel) = relative_file_id(files[i].0.as_str(), &root);
                let ghost before = out@;
                push_member_arcs(fid, &files[i].1, "executed_branches", &mut out);
                if with_missing {
                    push_member_arcs(fid, &files[i].1, "missing_branches", &mut out);
                }
                assert(out@ =~= before + file_branches(fid, files@[i as int].1, with_missing));
                let ghost pb = paths@.map_values(|e: (u64, String)| (e.0, e.1@));
                let ghost rv = rel@;
                paths.push((fid, rel));
                assert(paths@.map_values(|e: (u64, String)| (e.0, e.1@)) =~= pb.push((fid, rv)));
                assert(report_paths(files@.take(i + 1), repo_root@)
                    =~= report_paths(files@.take(i as int), repo_root@).push((fid, rv)));
                i = i + 1;
            }
            assert(files@.take(files@.len() as int) =~= files@);
            Ok((out, paths))
        },
    }
}

/// Reads a coverage.py JSON text (`serde_json`) and returns its executed
/// branches: `Err` exactly where the text is not JSON or not a report
/// ([`coverage_report`]); the branches are those of
/// [`coverage_from_document`] without missing arcs.
pub fn parse_coverage_executed_str(content: &str, repo_root: &str) -> (r: Result<Vec<BranchId>, String>)
    ensures
        match r {
            Ok(b) => coverage_report(content@) matches Some(f)
                && b@ == report_branches(f, repo_root@, false),
            Err(_) => coverage_report(content@) is None,
        },
{
    let doc = match parse_json_document(content) {
        Ok(d) => d,
        Err(e) => {
            return Err(e);
        },
    };
    match coverage_from_document(&doc, repo_root, false) {
        Ok((b, _)) => Ok(b),
        Err(e) => Err(e),
    }
}

/// Reads a coverage.py JSON text (`serde_json`) and returns every branch it
/// lists, executed then missing, file after file, with each file's id and
/// relative path: `Err` exactly where the text is not JSON or not a report.
pub fn parse_coverage_all_branches_str(content: &str, repo_root: &str)
    -> (r: Result<(Vec<BranchId>, Vec<(u64, String)>), String>)
    ensures
        match r {
            Ok((b, p)) => coverage_report(content@) matches Some(f)
                && b@ == report_branches(f, repo_root@, true)
                && p@.map_values(|e: (u64, String)| (e.0, e.1@)) == report_paths(f, repo_root@),
            Err(_) => coverage_report(content@) is None,
        },
{
    let doc = match parse_json_document(content) {
        Ok(d) => d,
        Err(e) => {
            return Err(e);
        },
    };
    coverage_from_document(&doc, repo_root, true)
}

/// The test ids that `pytest --collect-only -q` lists among the lines `ls`:
/// each trimmed line holding `::` and not opening with `=` or `-`, in order.
pub open spec fn collected_tests(ls: Seq<Seq<char>>) -> Seq<Seq<char>>
    decreases ls.len(),
{
    if ls.len() == 0 {
        Seq::empty()
    } else {
        let t = trim(ls.last());
        collected_tests(ls.drop_last()) + if contains(t, "::"@) && !starts_with(t, "="@) && !starts_with(
            t,
            "-"@,
        ) {
            seq![t]
        } else {
            Seq::empty()
        }
    }
}

/// The test ids in the output of `pytest --collect-only -q` (see
/// [`collected_tests`]).
pub fn collected_test_ids(stdout: &str) -> (r: Vec<String>)
    ensures
        r@.map_values(|s: String| s@) == collected_tests(lines(stdout@)),
{
    let cs = chars_of(stdout);
    let ls = lines_of(&cs);
    let ghost lv = ls@.map_values(|l: Vec<char>| l@);
    let mut out: Vec<String> = Vec::new();
    let mut i: usize = 0;
    assert(lv.take(0) =~= Seq::<Seq<char>>::empty());
    while i < ls.len()
        invariant
            i <= ls@.len(),
            lv == ls@.map_values(|l: Vec<char>| l@),
            out@.map_values(|s: String| s@) == collected_tests(lv.take(i as int)),
        decreases ls@.len() - i,
    {
        assert(lv.take(i + 1).drop_last() =~= lv.take(i as int));
        assert(lv.take(i + 1).last() == ls@[i as int]@);
        let t = crate::cpg::line_parser::trimmed(ls[i].as_slice());
        let ghost before = out@.map_values(|s: String| s@);
        if contains_str(&t, "::") && !starts_with_str(&t, "=") && !starts_with_str(&t, "-") {
            let ghost tv = t@;
            out.push(string_of(&t));
            assert(out@.map_values(|s: String| s@) =~= before + seq![tv]);
        } else {
            assert(before + Seq::<Seq<char>>::empty() =~= before);
        }
        i = i + 1;
    }
    assert(lv.take(ls@.len() as int) =~= lv);
    out
}

} // verus!
