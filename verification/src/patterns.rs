//! Common file patterns used for filtering files during indexing and search.

use vstd::prelude::*;
use vstd::string::StringExecFns;
use vstd::string::StringSliceAdditionalSpecFns;
use vstd::utf8::encode_utf8;

use crate::strutil;

verus! {

/// The default path substrings that exclude a file from indexing and search:
/// version control, build outputs, package managers, caches, and data
/// directories.
pub open spec fn spec_default_exclude_patterns() -> Seq<Seq<char>> {
    seq![
        ".git"@,
        ".svn"@,
        ".hg"@,
        "target"@,
        "dist"@,
        "build"@,
        "out"@,
        ".next"@,
        "node_modules"@,
        "vendor"@,
        ".pnpm-store"@,
        "__pycache__"@,
        ".venv"@,
        "venv"@,
        ".pytest_cache"@,
        "*.egg-info"@,
        ".vscode"@,
        ".idea"@,
        ".DS_Store"@,
        "Thumbs.db"@,
        "tmp"@,
        "temp"@,
        "cache"@,
        ".cache"@,
        "storage"@,
        "qdrant_storage"@,
        ".qdrant"@,
        "data"@,
        "db"@,
        ".db"@,
    ]
}

/// Binary file extensions that are always skipped: images, documents,
/// archives, executables, media, binary data, lock files.
pub open spec fn spec_binary_extensions() -> Seq<Seq<char>> {
    seq![
        "png"@, "jpg"@, "jpeg"@, "gif"@, "bmp"@, "ico"@, "svg"@, "webp"@,
        "pdf"@, "doc"@, "docx"@, "xls"@, "xlsx"@, "ppt"@, "pptx"@,
        "zip"@, "tar"@, "gz"@, "bz2"@, "7z"@, "rar"@,
        "exe"@, "dll"@, "so"@, "dylib"@, "a"@, "lib"@,
        "mp3"@, "mp4"@, "avi"@, "mov"@, "mkv"@, "wav"@, "flac"@,
        "wasm"@, "bin"@, "dat"@, "db"@, "sqlite"@, "sqlite3"@,
        "lock"@,
    ]
}

/// Default patterns to exclude from indexing and search.
pub fn default_exclude_patterns() -> (r: Vec<String>)
    ensures
        r.deep_view() == spec_default_exclude_patterns(),
{
    let mut v: Vec<String> = Vec::new();
    v.push(String::from_str(".git"));
    v.push(String::from_str(".svn"));
    v.push(String::from_str(".hg"));
    v.push(String::from_str("target"));
    v.push(String::from_str("dist"));
    v.push(String::from_str("build"));
    v.push(String::from_str("out"));
    v.push(String::from_str(".next"));
    v.push(String::from_str("node_modules"));
    v.push(String::from_str("vendor"));
    v.push(String::from_str(".pnpm-store"));
    v.push(String::from_str("__pycache__"));
    v.push(String::from_str(".venv"));
    v.push(String::from_str("venv"));
    v.push(String::from_str(".pytest_cache"));
    v.push(String::from_str("*.egg-info"));
    v.push(String::from_str(".vscode"));
    v.push(String::from_str(".idea"));
    v.push(String::from_str(".DS_Store"));
    v.push(String::from_str("Thumbs.db"));
    v.push(String::from_str("tmp"));
    v.push(String::from_str("temp"));
    v.push(String::from_str("cache"));
    v.push(String::from_str(".cache"));
    v.push(String::from_str("storage"));
    v.push(String::from_str("qdrant_storage"));
    v.push(String::from_str(".qdrant"));
    v.push(String::from_str("data"));
    v.push(String::from_str("db"));
    v.push(String::from_str(".db"));
    proof {
        assert(v.deep_view() =~~= spec_default_exclude_patterns());
    }
    v
}

/// Binary file extensions that should be skipped.
pub fn binary_extensions() -> (r: Vec<&'static str>)
    ensures
        r.deep_view() == spec_binary_extensions(),
{
    let mut v: Vec<&'static str> = Vec::new();
    v.push("png");
    v.push("jpg");
    v.push("jpeg");
    v.push("gif");
    v.push("bmp");
    v.push("ico");
    v.push("svg");
    v.push("webp");
    v.push("pdf");
    v.push("doc");
    v.push("docx");
    v.push("xls");
    v.push("xlsx");
    v.push("ppt");
    v.push("pptx");
    v.push("zip");
    v.push("tar");
    v.push("gz");
    v.push("bz2");
    v.push("7z");
    v.push("rar");
    v.push("exe");
    v.push("dll");
    v.push("so");
    v.push("dylib");
    v.push("a");
    v.push("lib");
    v.push("mp3");
    v.push("mp4");
    v.push("avi");
    v.push("mov");
    v.push("mkv");
    v.push("wav");
    v.push("flac");
    v.push("wasm");
    v.push("bin");
    v.push("dat");
    v.push("db");
    v.push("sqlite");
    v.push("sqlite3");
    v.push("lock");
    proof {
        assert(v.deep_view() =~~= spec_binary_extensions());
    }
    v
}

/// The extension is one of the binary extensions, compared without regard
/// to ASCII case.
pub open spec fn spec_is_binary_extension(ext: Seq<u8>) -> bool {
    exists|i: int|
        0 <= i < spec_binary_extensions().len() && strutil::spec_lower(ext)
            == strutil::spec_lower(encode_utf8(#[trigger] spec_binary_extensions()[i]))
}

/// A path is skipped when it contains one of the exclude patterns as a
/// substring, or when its extension is a known binary extension.
pub open spec fn spec_should_exclude(path: Seq<u8>, pats: Seq<Seq<char>>) -> bool {
    (exists|i: int|
        0 <= i < pats.len() && strutil::spec_contains(path, encode_utf8(#[trigger] pats[i])))
        || (strutil::spec_extension(path) matches Some(e) && spec_is_binary_extension(e))
}

/// Check whether a path should be skipped, by exclude patterns or by its
/// extension being a known binary one.
pub fn should_exclude(path: &str, exclude_patterns: &Vec<String>) -> (r: bool)
    ensures
        r == spec_should_exclude(path.spec_bytes(), exclude_patterns.deep_view()),
{
    let n = exclude_patterns.len();
    let mut i: usize = 0;
    while i < n
        invariant
            n == exclude_patterns@.len(),
            0 <= i <= n,
            forall|q: int|
                0 <= q < i ==> !strutil::spec_contains(
                    path.spec_bytes(),
                    encode_utf8(#[trigger] exclude_patterns.deep_view()[q]),
                ),
        decreases n - i,
    {
        let hit = strutil::str_contains(path, exclude_patterns[i].as_str());
        assert(exclude_patterns.deep_view()[i as int] == exclude_patterns@[i as int]@);
        if hit {
            return true;
        }
        i = i + 1;
    }
    match strutil::extension_of(path) {
        Some(ext) => {
            let bins = binary_extensions();
            let m = bins.len();
            let mut j: usize = 0;
            while j < m
                invariant
                    bins.deep_view() == spec_binary_extensions(),
                    m == bins@.len(),
                    0 <= j <= m,
                    strutil::spec_extension(path.spec_bytes()) == Some(ext.spec_bytes()),
                    forall|q: int|
                        0 <= q < j ==> strutil::spec_lower(ext.spec_bytes())
                            != strutil::spec_lower(
                            encode_utf8(#[trigger] spec_binary_extensions()[q]),
                        ),
                decreases m - j,
            {
                if strutil::eq_ignore_ascii(ext, bins[j]) {
                    assert(bins@[j as int]@ == spec_binary_extensions()[j as int]);
                    return true;
                }
                assert(bins@[j as int]@ == spec_binary_extensions()[j as int]);
                j = j + 1;
            }
            false
        },
        None => false,
    }
}

} // verus!
