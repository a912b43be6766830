//! File-indexing decisions: which files are indexable, which paths are
//! excluded. The directory walk itself is plain I/O and happens outside;
//! it hands paths and contents in as strings.

use vstd::prelude::*;
use vstd::string::StringSliceAdditionalSpecFns;
use vstd::utf8::encode_utf8;
use vstd::utf8::encode_utf8_valid_utf8;
use vstd::utf8::is_char_boundary_start_end_of_seq;

use crate::strutil;

verus! {

/// An error met while collecting files.
#[derive(Debug, Clone, PartialEq, Eq)]
pub enum IndexerError {
    /// An I/O failure, by its message.
    Io(String),
}

/// A file collected for indexing: its path and its text content.
#[derive(Debug, Clone)]
pub struct IndexedFile {
    pub path: String,
    pub content: String,
}

/// The suffix ends the sequence.
pub open spec fn spec_ends_with(b: Seq<u8>, suffix: Seq<u8>) -> bool {
    b.len() >= suffix.len() && b.subrange(b.len() - suffix.len(), b.len() as int) == suffix
}

/// Whether a model identifier names a local pre-quantized model file: it
/// ends in the model-file suffix and such a file exists (the caller
/// supplies that probe, which is file I/O).
pub fn is_local_gguf(model: &str, file_exists: bool) -> (r: bool)
    ensures
        r == (spec_ends_with(model.spec_bytes(), ".gguf"@.map_values(|c: char| c as u8))
            && file_exists),
{
    let b = model.as_bytes();
    let n = b.len();
    proof {
        reveal_strlit(".gguf");
    }
    let ghost suffix = ".gguf"@.map_values(|c: char| c as u8);
    assert(suffix.len() == 5);
    if n < 5 {
        return false;
    }
    let ok = b[n - 5] == 0x2e && b[n - 4] == 0x67 && b[n - 3] == 0x67 && b[n - 2] == 0x75 && b[n
        - 1] == 0x66;
    proof {
        if ok {
            assert(b@.subrange(n - 5, n as int) =~= suffix);
        } else {
            assert(b@.subrange(n - 5, n as int)[0] == b@[n - 5]);
            assert(b@.subrange(n - 5, n as int)[1] == b@[n - 4]);
            assert(b@.subrange(n - 5, n as int)[2] == b@[n - 3]);
            assert(b@.subrange(n - 5, n as int)[3] == b@[n - 2]);
            assert(b@.subrange(n - 5, n as int)[4] == b@[n - 1]);
        }
    }
    ok && file_exists
}

/// The number of bytes before the first `/`, or the whole length.
pub open spec fn spec_slash_pos(b: Seq<u8>) -> int
    decreases b.len(),
{
    if b.len() == 0 {
        0
    } else if b[0] == 0x2f {
        0
    } else {
        1 + spec_slash_pos(b.drop_first())
    }
}

pub proof fn lemma_slash_pos_bounds(b: Seq<u8>)
    ensures
        0 <= spec_slash_pos(b) <= b.len(),
        spec_slash_pos(b) < b.len() ==> b[spec_slash_pos(b)] == 0x2f,
        forall|j: int| 0 <= j < spec_slash_pos(b) ==> #[trigger] b[j] != 0x2f,
    decreases b.len(),
{
    if b.len() > 0 && b[0] != 0x2f {
        lemma_slash_pos_bounds(b.drop_first());
        assert forall|j: int| 0 <= j < spec_slash_pos(b) implies #[trigger] b[j] != 0x2f by {
            if j > 0 {
                assert(b.drop_first()[j - 1] == b[j]);
            }
        }
    }
}

/// The position a forward scan for `/` stops at.
pub proof fn lemma_slash_pos_at(b: Seq<u8>, p: int)
    requires
        0 <= p <= b.len(),
        p == b.len() || b[p] == 0x2f,
        forall|j: int| 0 <= j < p ==> #[trigger] b[j] != 0x2f,
    ensures
        spec_slash_pos(b) == p,
    decreases b.len(),
{
    if b.len() > 0 && b[0] != 0x2f {
        assert forall|j: int| 0 <= j < p - 1 implies #[trigger] b.drop_first()[j] != 0x2f by {
            assert(b.drop_first()[j] == b[j + 1]);
        }
        lemma_slash_pos_at(b.drop_first(), p - 1);
    }
}

/// Some path component (a run between slashes) contains the needle.
pub open spec fn spec_any_component_contains(b: Seq<u8>, needle: Seq<u8>) -> bool
    decreases b.len(),
    via spec_any_component_contains_decreases
{
    let p = spec_slash_pos(b);
    strutil::spec_contains(b.subrange(0, p), needle) || (p < b.len()
        && spec_any_component_contains(b.subrange(p + 1, b.len() as int), needle))
}

#[via_fn]
proof fn spec_any_component_contains_decreases(b: Seq<u8>, needle: Seq<u8>) {
    lemma_slash_pos_bounds(b);
}

/// Whether any path component contains the needle as a substring.
pub fn component_contains(path: &str, needle: &str) -> (r: bool)
    ensures
        r == spec_any_component_contains(path.spec_bytes(), needle.spec_bytes()),
    decreases path.spec_bytes().len(),
{
    proof {
        encode_utf8_valid_utf8(path@);
        is_char_boundary_start_end_of_seq(path.spec_bytes());
    }
    let b = path.as_bytes();
    let n = b.len();
    let mut p: usize = 0;
    while p < n && b[p] != 0x2f
        invariant
            b@ == path.spec_bytes(),
            n == b@.len(),
            0 <= p <= n,
            forall|j: int| 0 <= j < p ==> #[trigger] b@[j] != 0x2f,
        decreases n - p,
    {
        p = p + 1;
    }
    proof {
        lemma_slash_pos_at(b@, p as int);
    }
    if p == n {
        proof {
            assert(b@.subrange(0, n as int) =~= b@);
        }
        strutil::str_contains(path, needle)
    } else {
        proof {
            // The slash is ASCII, so the cut before it and the cut after
            // it both land on character boundaries.
            vstd::utf8::is_char_boundary_iff_not_is_continuation_byte(b@, p as int);
            strutil::lemma_boundary_after_ascii(b@, p as int);
        }
        let (head, _) = path.split_at(p);
        let (_, rest) = path.split_at(p + 1);
        if strutil::str_contains(head, needle) {
            true
        } else {
            component_contains(rest, needle)
        }
    }
}

/// A path is excluded when any of its components contains one of the
/// exclude patterns as a substring.
pub open spec fn spec_should_exclude(path: Seq<u8>, pats: Seq<Seq<char>>) -> bool {
    exists|i: int|
        0 <= i < pats.len() && spec_any_component_contains(path, encode_utf8(#[trigger] pats[i]))
}

/// Whether a path should be excluded from indexing, by components.
pub fn should_exclude(path: &str, patterns: &Vec<String>) -> (r: bool)
    ensures
        r == spec_should_exclude(path.spec_bytes(), patterns.deep_view()),
{
    let n = patterns.len();
    let mut i: usize = 0;
    while i < n
        invariant
            n == patterns@.len(),
            0 <= i <= n,
            forall|q: int|
                0 <= q < i ==> !spec_any_component_contains(
                    path.spec_bytes(),
                    encode_utf8(#[trigger] patterns.deep_view()[q]),
                ),
        decreases n - i,
    {
        let hit = component_contains(path, patterns[i].as_str());
        assert(patterns.deep_view()[i as int] == patterns@[i as int]@);
        if hit {
            return true;
        }
        i = i + 1;
    }
    false
}

/// A file is indexable when the extension set is empty, or its extension
/// is one of the configured ones.
pub open spec fn spec_is_indexable(path: Seq<u8>, exts: Seq<Seq<char>>) -> bool {
    if exts.len() == 0 {
        true
    } else {
        match strutil::spec_extension(path) {
            Some(e) => exists|i: int|
                0 <= i < exts.len() && e == encode_utf8(#[trigger] exts[i]),
            None => false,
        }
    }
}

/// Whether a file should be indexed, based on its extension.
pub fn is_indexable(path: &str, extensions: &Vec<String>) -> (r: bool)
    ensures
        r == spec_is_indexable(path.spec_bytes(), extensions.deep_view()),
{
    let n = extensions.len();
    if n == 0 {
        return true;
    }
    match strutil::extension_of(path) {
        Some(ext) => {
            let mut i: usize = 0;
            while i < n
                invariant
                    n == extensions@.len(),
                    0 <= i <= n,
                    strutil::spec_extension(path.spec_bytes()) == Some(ext.spec_bytes()),
                    forall|q: int|
                        0 <= q < i ==> ext.spec_bytes() != encode_utf8(
                            #[trigger] extensions.deep_view()[q],
                        ),
                decreases n - i,
            {
                let hit = strutil::str_eq(ext, extensions[i].as_str());
                assert(extensions.deep_view()[i as int] == extensions@[i as int]@);
                if hit {
                    return true;
                }
                i = i + 1;
            }
            false
        },
        None => false,
    }
}

} // verus!
