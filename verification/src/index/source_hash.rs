//! The fingerprint of a project's sources, for telling a stale index: which
//! files count as sources, and the SHA-256 of their paths and contents.
use vstd::prelude::*;
use sha2::{Digest, Sha256};
use vstd::utf8::encode_utf8;
use crate::text::{chars_of, eq_str, strings_of};
use crate::types::Language;

verus! {

/// SHA-256 of a byte sequence, as 64 lowercase hex digits.
pub uninterp spec fn sha256_hex(data: Seq<u8>) -> Seq<char>;

/// Calls `sha2::Sha256::digest` on `data` and formats the digest in
/// lowercase hex (`{:x}`). The result is a function of the bytes alone,
/// named by [`sha256_hex`].
#[verifier::external_body]
fn sha256_hex_of(data: &[u8]) -> (r: String)
    ensures
        r@ == sha256_hex(data@),
{
    format!("{:x}", Sha256::digest(data))
}

/// The file extensions of a language's sources.
pub open spec fn extensions_of(language: Language) -> Seq<Seq<char>> {
    match language {
        Language::Python => seq!["py"@],
        Language::Rust => seq!["rs"@],
        Language::JavaScript => seq!["js"@, "ts"@],
        Language::Java => seq!["java"@],
        Language::C => seq!["c"@, "h"@],
        Language::Wasm => seq!["wat"@, "wasm"@],
        Language::Ruby => seq!["rb"@],
        Language::Go => seq!["go"@],
    }
}

/// Directory entries that the walk over a project skips: hidden names,
/// build output, dependency trees, byte-code caches and virtual environments.
pub open spec fn is_skipped_name(name: Seq<char>) -> bool {
    (name.len() > 0 && name[0] == '.') || name == "target"@ || name == "node_modules"@
        || name == "__pycache__"@ || name == ".venv"@ || name == "venv"@
}

/// The bytes hashed for a list of files: each path's UTF-8 text, then the
/// file's contents, file after file.
pub open spec fn hashed_bytes(files: Seq<(String, Vec<u8>)>) -> Seq<u8>
    decreases files.len(),
{
    if files.len() == 0 {
        Seq::empty()
    } else {
        hashed_bytes(files.drop_last()) + encode_utf8(files.last().0@) + files.last().1@
    }
}

/// The source file extensions of `language` (see [`extensions_of`]).
pub fn source_extensions(language: Language) -> (r: Vec<String>)
    ensures
        r@.map_values(|s: String| s@) == extensions_of(language),
{
    let lits: Vec<&str> = match language {
        Language::Python => vec!["py"],
        Language::Rust => vec!["rs"],
        Language::JavaScript => vec!["js", "ts"],
        Language::Java => vec!["java"],
        Language::C => vec!["c", "h"],
        Language::Wasm => vec!["wat", "wasm"],
        Language::Ruby => vec!["rb"],
        Language::Go => vec!["go"],
    };
    let r = strings_of(lits.as_slice());
    assert(r@.map_values(|s: String| s@) =~= extensions_of(language));
    r
}

/// Whether a file with extension `ext` is a source of `language`.
pub fn is_source_extension(ext: &str, language: Language) -> (b: bool)
    ensures
        b == extensions_of(language).contains(ext@),
{
    let exts = source_extensions(language);
    let ghost ev = exts@.map_values(|s: String| s@);
    let ec = chars_of(ext);
    let mut i: usize = 0;
    while i < exts.len()
        invariant
            i <= exts@.len(),
            ev == exts@.map_values(|s: String| s@),
            ev == extensions_of(language),
            ec@ == ext@,
            forall|j: int| 0 <= j < i ==> ev[j] != ext@,
        decreases exts@.len() - i,
    {
        if eq_str(&ec, exts[i].as_str()) {
            assert(ev[i as int] == ext@);
            return true;
        }
        i = i + 1;
    }
    false
}

/// Whether the walk over a project skips the entry `name` (see
/// [`is_skipped_name`]).
pub fn skipped_entry(name: &str) -> (b: bool)
    ensures
        b == is_skipped_name(name@),
{
    let c = chars_of(name);
    (c.len() > 0 && c[0] == '.') || eq_str(&c, "target") || eq_str(&c, "node_modules") || eq_str(
        &c,
        "__pycache__",
    ) || eq_str(&c, ".venv") || eq_str(&c, "venv")
}

/// Appends the bytes of `src` to `out`.
fn push_bytes(out: &mut Vec<u8>, src: &[u8])
    ensures
        final(out)@ == old(out)@ + src@,
{
    let mut i: usize = 0;
    while i < src.len()
        invariant
            i <= src@.len(),
            out@ == old(out)@ + src@.take(i as int),
        decreases src@.len() - i,
    {
        out.push(src[i]);
        assert(src@.take(i + 1) =~= src@.take(i as int).push(src@[i as int]));
        assert(out@ =~= old(out)@ + src@.take(i + 1));
        i = i + 1;
    }
    assert(src@.take(src@.len() as int) =~= src@);
}

/// The SHA-256 (lowercase hex) of the files' paths and contents, each path
/// then its contents, in the order given (see [`hashed_bytes`]).
pub fn source_files_hash(files: &Vec<(String, Vec<u8>)>) -> (r: String)
    ensures
        r@ == sha256_hex(hashed_bytes(files@)),
{
    let mut buf: Vec<u8> = Vec::new();
    let mut i: usize = 0;
    assert(files@.take(0) =~= Seq::<(String, Vec<u8>)>::empty());
    while i < files.len()
        invariant
            i <= files@.len(),
            buf@ == hashed_bytes(files@.take(i as int)),
        decreases files@.len() - i,
    {
        assert(files@.take(i + 1).drop_last() =~= files@.take(i as int));
        assert(files@.take(i + 1).last() == files@[i as int]);
        let ghost before = buf@;
        push_bytes(&mut buf, files[i].0.as_str().as_bytes());
        push_bytes(&mut buf, files[i].1.as_slice());
        assert(buf@ =~= before + encode_utf8(files@[i as int].0@) + files@[i as int].1@);
        i = i + 1;
    }
    assert(files@.take(files@.len() as int) =~= files@);
    sha256_hex_of(buf.as_slice())
}

} // verus!
