//! Where things live on disk.
//!
//! A path is modelled as a base followed by relative components, each joined
//! on the way `Path::join` joins a relative component. The layout of the
//! runtime directory is fixed here:
//!
//! ```text
//! <data>/runtimes/<version>/node_modules/@deepseek-ai/dsh/lib/bin.js
//! ```
use vstd::prelude::*;

use crate::text::{chars_of, same_chars, slice_chars, string_of};

verus! {

/// A filesystem path: `parts[0]` is the base, every later part a relative
/// component joined onto what precedes it.
pub struct FsPath {
    pub parts: Vec<String>,
}

impl View for FsPath {
    type V = Seq<Seq<char>>;

    open spec fn view(&self) -> Seq<Seq<char>> {
        self.parts@.map_values(|p: String| p@)
    }
}

impl FsPath {
    /// The path `base`.
    pub fn new(base: String) -> (p: FsPath)
        ensures
            p@ == seq![base@],
    {
        let mut parts = Vec::new();
        parts.push(base);
        let p = FsPath { parts };
        assert(p@ =~= seq![p.parts@[0]@]);
        p
    }

    /// A copy of this path.
    pub fn duplicate(&self) -> (p: FsPath)
        ensures
            p@ == self@,
    {
        let mut parts: Vec<String> = Vec::new();
        let mut i: usize = 0;
        while i < self.parts.len()
            invariant
                i <= self.parts@.len(),
                parts@.map_values(|p: String| p@) == self@.take(i as int),
            decreases self.parts@.len() - i,
        {
            let c = self.parts[i].clone();
            let ghost before = parts@;
            parts.push(c);
            assert(parts@ == before.push(c));
            assert(parts@.map_values(|p: String| p@) =~= before.map_values(|p: String| p@).push(
                c@,
            ));
            assert(self@[i as int] == c@);
            assert(self@.take(i + 1) =~= self@.take(i as int).push(self@[i as int]));
            i += 1;
        }
        assert(self@.take(self.parts@.len() as int) =~= self@);
        FsPath { parts }
    }

    /// `self.join(part)` for a relative `part`.
    pub fn join(&self, part: &str) -> (p: FsPath)
        ensures
            p@ == self@.push(part@),
    {
        let mut p = self.duplicate();
        p.parts.push(String::from_str(part));
        assert(p@ =~= self@.push(part@));
        p
    }
}

/// The Windows extended-length prefix `\\?\`.
pub open spec fn verbatim_prefix() -> Seq<char> {
    seq!['\\', '\\', '?', '\\']
}

/// A path without its `\\?\` prefix; any other path unchanged.
pub open spec fn without_verbatim(p: Seq<char>) -> Seq<char> {
    if p.len() >= 4 && p.take(4) == verbatim_prefix() {
        p.skip(4)
    } else {
        p
    }
}

/// Drop a Windows `\\?\` extended-length prefix.
///
/// Tauri resolves resources through canonicalisation, which on Windows
/// yields such a path, and Node cannot run a script addressed that way.
pub fn strip_verbatim(path: String) -> (r: String)
    ensures
        r@ == without_verbatim(path@),
{
    let v = chars_of(path.as_str());
    if v.len() >= 4 {
        let head = slice_chars(&v, 0, 4);
        let prefix: Vec<char> = vec!['\\', '\\', '?', '\\'];
        assert(prefix@ =~= verbatim_prefix());
        if same_chars(&head, &prefix) {
            return string_of(&slice_chars(&v, 4, v.len()));
        }
    }
    path
}

/// The permission bits to give a bundled binary so that it can be executed:
/// `None` when some execute bit is already set, otherwise `Some(0o755)`.
///
/// Archive formats and bundlers do not agree about preserving the execute
/// bit, and a node that cannot be executed is indistinguishable from a
/// missing one.
pub fn ensure_executable(mode: u32) -> (r: Option<u32>)
    ensures
        (mode & 0o111) != 0 ==> r is None,
        (mode & 0o111) == 0 ==> r == Some(0o755u32),
{
    if mode & 0o111 != 0 {
        None
    } else {
        Some(0o755)
    }
}

/// The record of which host this app owns: `<data>/host.json`.
pub fn record_path(data: &FsPath) -> (p: FsPath)
    ensures
        p@ == data@.push("host.json"@),
{
    data.join("host.json")
}

/// The entry point inside one npm prefix directory:
/// `<prefix>/node_modules/@deepseek-ai/dsh/lib/bin.js`.
pub fn bin_in(prefix: &FsPath) -> (p: FsPath)
    ensures
        p@ == prefix@ + seq![
            "node_modules"@,
            "@deepseek-ai"@,
            "dsh"@,
            "lib"@,
            "bin.js"@,
        ],
{
    let p = prefix.join("node_modules").join("@deepseek-ai").join("dsh").join("lib").join(
        "bin.js",
    );
    assert(p@ =~= prefix@ + seq!["node_modules"@, "@deepseek-ai"@, "dsh"@, "lib"@, "bin.js"@]);
    p
}

/// The entry point of an installed version: `<runtimes>/<version>/...bin.js`.
pub fn bin_path(runtimes: &FsPath, version: &str) -> (p: FsPath)
    ensures
        p@ == runtimes@ + seq![
            version@,
            "node_modules"@,
            "@deepseek-ai"@,
            "dsh"@,
            "lib"@,
            "bin.js"@,
        ],
{
    let p = bin_in(&runtimes.join(version));
    assert(p@ =~= runtimes@ + seq![
        version@,
        "node_modules"@,
        "@deepseek-ai"@,
        "dsh"@,
        "lib"@,
        "bin.js"@,
    ]);
    p
}

} // verus!
