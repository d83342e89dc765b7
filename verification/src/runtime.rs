//! Managing the DeepSeek Harness runtime itself: which versions exist, which
//! one to run, which one the registry offers, and which old ones to drop.
//!
//! Each version is installed from npm into its own directory, so an update is
//! a directory switch rather than a mutation, and the previous version stays
//! on disk as a rollback target.
use vstd::prelude::*;

use crate::paths::{bin_path, FsPath};
use crate::text::{chars_of, same_chars, slice_chars, string_of, trim, trim_chars};
use crate::version::{
    chains, law_compare_antisymmetric, law_compare_reflexive, law_compare_transitive,
    lemma_text_order, not_above, reversed, text_order, text_order_exec, version_order,
    version_order_exec, Order,
};

verus! {

/// The upstream package. Its `bin.js` is the same entry the `dsh` command uses.
pub const PACKAGE: &'static str = "@deepseek-ai/dsh";

/// Which upstream dist-tag to follow.
#[derive(Clone, Copy, Debug, PartialEq, Eq, Structural)]
pub enum Channel {
    Latest,
    Next,
}

impl Channel {
    /// The dist-tag's name.
    pub open spec fn tag_text(self) -> Seq<char> {
        match self {
            Channel::Latest => "latest"@,
            Channel::Next => "next"@,
        }
    }

    /// The dist-tag's name: `latest` or `next`.
    pub fn tag(self) -> (r: &'static str)
        ensures
            r@ == self.tag_text(),
    {
        match self {
            Channel::Latest => "latest",
            Channel::Next => "next",
        }
    }
}

// ---------------------------------------------------------------------------
// The registry's answer
// ---------------------------------------------------------------------------

/// Why the registry could not say which version a channel points at.
pub enum RegistryError {
    /// The request failed; holds why.
    Unreachable(String),
    /// The response body could not be read; holds why.
    Unreadable(String),
    /// The body is not the expected document; holds why.
    UnexpectedPayload(String),
    /// The document has no such dist-tag.
    NoTag(Channel),
}

impl RegistryError {
    /// What to tell the user.
    pub fn message(&self) -> (r: String)
        ensures
            self matches RegistryError::Unreachable(c) ==> r@ == "npm registry is unreachable: "@
                + c@,
            self matches RegistryError::Unreadable(c) ==> r@ == c@,
            self matches RegistryError::UnexpectedPayload(c) ==> r@
                == "unexpected registry payload: "@ + c@,
            self matches RegistryError::NoTag(ch) ==> r@ == "registry has no `"@ + ch.tag_text()
                + "` tag"@,
    {
        match self {
            RegistryError::Unreachable(c) => {
                let mut r = String::from_str("npm registry is unreachable: ");
                r.append(c.as_str());
                r
            },
            RegistryError::Unreadable(c) => c.clone(),
            RegistryError::UnexpectedPayload(c) => {
                let mut r = String::from_str("unexpected registry payload: ");
                r.append(c.as_str());
                r
            },
            RegistryError::NoTag(ch) => {
                let mut r = String::from_str("registry has no `");
                r.append(ch.tag());
                r.append("` tag");
                r
            },
        }
    }
}

/// The views of the registry's dist-tags, `(tag, version)` pairs.
pub open spec fn tag_pairs(tags: Seq<(String, String)>) -> Seq<(Seq<char>, Seq<char>)> {
    tags.map_values(|t: (String, String)| (t.0@, t.1@))
}

/// The version a tag names: the last pair with that tag (a JSON object read
/// into a map keeps the last of repeated keys).
pub open spec fn tag_lookup(tags: Seq<(Seq<char>, Seq<char>)>, tag: Seq<char>) -> Option<Seq<char>>
    decreases tags.len(),
{
    if tags.len() == 0 {
        None
    } else if tags.last().0 == tag {
        Some(tags.last().1)
    } else {
        tag_lookup(tags.drop_last(), tag)
    }
}

/// The version the registry's dist-tags give for a channel.
pub fn published_version(dist_tags: &Vec<(String, String)>, channel: Channel) -> (r: Result<
    String,
    RegistryError,
>)
    ensures
        match tag_lookup(tag_pairs(dist_tags@), channel.tag_text()) {
            Some(v) => r matches Ok(s) && s@ == v,
            None => r matches Err(RegistryError::NoTag(c)) && c == channel,
        },
{
    let tag = String::from_str(channel.tag());
    let mut i = dist_tags.len();
    assert(tag_pairs(dist_tags@).take(i as int) =~= tag_pairs(dist_tags@));
    while i > 0
        invariant
            i <= dist_tags@.len(),
            tag@ == channel.tag_text(),
            tag_lookup(tag_pairs(dist_tags@), channel.tag_text()) == tag_lookup(
                tag_pairs(dist_tags@).take(i as int),
                channel.tag_text(),
            ),
        decreases i,
    {
        let ghost t = tag_pairs(dist_tags@).take(i as int);
        assert(t.drop_last() =~= tag_pairs(dist_tags@).take(i - 1));
        assert(t.last() == (dist_tags@[i - 1].0@, dist_tags@[i - 1].1@));
        if dist_tags[i - 1].0 == tag {
            return Ok(dist_tags[i - 1].1.clone());
        }
        i -= 1;
    }
    Err(RegistryError::NoTag(channel))
}

// ---------------------------------------------------------------------------
// Installed versions
// ---------------------------------------------------------------------------

/// The order of installed version names: by version, and names of equal
/// version (such as `1.0` and `1.0.0`) by their text.
pub open spec fn name_order(x: Seq<char>, y: Seq<char>) -> Order {
    if version_order(x, y) != Order::Equal {
        version_order(x, y)
    } else {
        text_order(x, y)
    }
}

/// Names in ascending `name_order`, so in ascending version order.
pub open spec fn sorted_names(s: Seq<Seq<char>>) -> bool {
    forall|i: int, j: int| 0 <= i < j < s.len() ==> not_above(#[trigger] name_order(s[i], s[j]))
}

/// Names oldest version first.
pub open spec fn oldest_names_first(s: Seq<Seq<char>>) -> bool {
    forall|i: int, j: int| 0 <= i < j < s.len() ==> not_above(#[trigger] version_order(s[i], s[j]))
}

proof fn lemma_name_order(x: Seq<char>, y: Seq<char>, z: Seq<char>)
    ensures
        name_order(y, x) == reversed(name_order(x, y)),
        name_order(x, x) == Order::Equal,
        chains(name_order(x, y), name_order(y, z), name_order(x, z)),
        not_above(name_order(x, y)) ==> not_above(version_order(x, y)),
{
    law_compare_antisymmetric(x, y);
    law_compare_reflexive(x);
    law_compare_transitive(x, y, z);
    lemma_text_order(x, y, z);
    lemma_text_order(x, x, x);
}

proof fn lemma_sorted_names(s: Seq<Seq<char>>)
    requires
        sorted_names(s),
    ensures
        oldest_names_first(s),
{
    assert forall|i: int, j: int| 0 <= i < j < s.len() implies not_above(
        #[trigger] version_order(s[i], s[j]),
    ) by {
        assert(not_above(name_order(s[i], s[j])));
        lemma_name_order(s[i], s[j], s[j]);
    }
}

/// `name_order` of two names.
fn name_order_exec(x: &str, y: &str) -> (r: Order)
    ensures
        r == name_order(x@, y@),
{
    let v = version_order_exec(x, y);
    match v {
        Order::Equal => text_order_exec(&chars_of(x), &chars_of(y)),
        _ => v,
    }
}

/// `r` holds the items of `s` rearranged by `p`: `r[i] == s[p[i]]`, with `p`
/// a permutation of the positions of `s`.
pub open spec fn rearranged<T>(r: Seq<T>, s: Seq<T>, p: Seq<int>) -> bool {
    &&& p.len() == s.len()
    &&& r.len() == s.len()
    &&& forall|i: int| 0 <= i < p.len() ==> 0 <= #[trigger] p[i] < s.len()
    &&& forall|i: int, j: int| 0 <= i < j < p.len() ==> p[i] != p[j]
    &&& forall|i: int| 0 <= i < r.len() ==> r[i] == s[#[trigger] p[i]]
    &&& forall|j: int| 0 <= j < s.len() ==> #[trigger] hits(p, j)
}

/// Some position of `p` holds `j`.
pub open spec fn hits(p: Seq<int>, j: int) -> bool {
    exists|i: int| 0 <= i < p.len() && #[trigger] p[i] == j
}

/// Inserting the next item of `s` anywhere keeps a rearrangement.
pub proof fn lemma_rearranged_insert<T>(r: Seq<T>, s: Seq<T>, p: Seq<int>, pos: int, x: T)
    requires
        rearranged(r, s, p),
        0 <= pos <= r.len(),
    ensures
        rearranged(r.insert(pos, x), s.push(x), p.insert(pos, s.len() as int)),
{
    let n = r.insert(pos, x);
    let t = s.push(x);
    let q = p.insert(pos, s.len() as int);
    assert forall|i: int| 0 <= i < n.len() implies n[i] == t[#[trigger] q[i]] by {
        if i < pos {
            assert(n[i] == r[i] && q[i] == p[i]);
        } else if i > pos {
            assert(n[i] == r[i - 1] && q[i] == p[i - 1]);
        }
    }
    assert forall|i: int| 0 <= i < q.len() implies 0 <= #[trigger] q[i] < t.len() by {
        if i < pos {
            assert(q[i] == p[i]);
        } else if i > pos {
            assert(q[i] == p[i - 1]);
        }
    }
    assert forall|i: int, j: int| 0 <= i < j < q.len() implies q[i] != q[j] by {
        let a = if i < pos {
            i
        } else {
            i - 1
        };
        let b = if j < pos {
            j
        } else {
            j - 1
        };
        if i != pos && j != pos {
            assert(q[i] == p[a] && q[j] == p[b]);
        } else if i == pos {
            assert(q[j] == p[b]);
        } else {
            assert(q[i] == p[a]);
        }
    }
    assert forall|j: int| 0 <= j < t.len() implies #[trigger] hits(q, j) by {
        if j == s.len() {
            assert(q[pos] == j);
        } else {
            assert(hits(p, j));
            let i0 = choose|i: int| 0 <= i < p.len() && #[trigger] p[i] == j;
            if i0 < pos {
                assert(q[i0] == j);
            } else {
                assert(q[i0 + 1] == j);
            }
        }
    }
}

/// The views of a vector of strings.
pub open spec fn texts(v: Seq<String>) -> Seq<Seq<char>> {
    v.map_values(|s: String| s@)
}

/// `.staging-`: the name prefix of an install still being assembled.
pub open spec fn staging_prefix() -> Seq<char> {
    seq!['.', 's', 't', 'a', 'g', 'i', 'n', 'g', '-']
}

/// Is this the name of a staging directory?
pub open spec fn is_staging(name: Seq<char>) -> bool {
    name.len() >= 9 && name.take(9) == staging_prefix()
}

/// The names of the complete installs among the entries, in their given
/// order: the flag is set, and the name is not a staging directory's.
pub open spec fn flagged(entries: Seq<(String, bool)>) -> Seq<Seq<char>>
    decreases entries.len(),
{
    if entries.len() == 0 {
        Seq::empty()
    } else if entries.last().1 && !is_staging(entries.last().0@) {
        flagged(entries.drop_last()).push(entries.last().0@)
    } else {
        flagged(entries.drop_last())
    }
}

/// A name is a staging directory's exactly when it begins with `.staging-`;
/// a name that begins with a digit, as every version does, never is.
pub proof fn law_staging_names(name: Seq<char>)
    ensures
        is_staging(name) <==> (name.len() >= 9 && name.take(9) == seq![
            '.',
            's',
            't',
            'a',
            'g',
            'i',
            'n',
            'g',
            '-',
        ]),
        name.len() > 0 && '0' <= name[0] <= '9' ==> !is_staging(name),
{
    if name.len() >= 9 && is_staging(name) {
        assert(name[0] == name.take(9)[0]);
    }
}

/// The listed names are exactly the complete entries' names that do not
/// begin with `.staging-`: every such name is listed, and every listed name
/// is one of them.
pub proof fn law_listed_names(entries: Seq<(String, bool)>)
    ensures
        forall|i: int|
            0 <= i < entries.len() && entries[i].1 && !(entries[i].0@.len() >= 9
                && entries[i].0@.take(9) == seq!['.', 's', 't', 'a', 'g', 'i', 'n', 'g', '-'])
                ==> flagged(entries).contains(#[trigger] entries[i].0@),
        forall|n: Seq<char>|
            #[trigger] flagged(entries).contains(n) ==> exists|i: int|
                0 <= i < entries.len() && entries[i].1 && #[trigger] entries[i].0@ == n && !(
                n.len() >= 9 && n.take(9) == seq!['.', 's', 't', 'a', 'g', 'i', 'n', 'g', '-']),
    decreases entries.len(),
{
    if entries.len() > 0 {
        let init = entries.drop_last();
        let last = entries.last();
        law_listed_names(init);
        law_staging_names(last.0@);
        let f = flagged(entries);
        let g = flagged(init);
        assert forall|i: int|
            0 <= i < entries.len() && entries[i].1 && !(entries[i].0@.len() >= 9
                && entries[i].0@.take(9) == seq!['.', 's', 't', 'a', 'g', 'i', 'n', 'g', '-'])
                implies f.contains(#[trigger] entries[i].0@) by {
            if i < entries.len() - 1 {
                assert(entries[i] == init[i]);
                assert(g.contains(init[i].0@));
                let k = choose|k: int| 0 <= k < g.len() && g[k] == init[i].0@;
                assert(f[k] == g[k]);
            } else {
                law_staging_names(entries[i].0@);
                assert(f == g.push(last.0@));
                assert(f[g.len() as int] == last.0@);
            }
        }
        assert forall|n: Seq<char>| #[trigger] f.contains(n) implies exists|i: int|
            0 <= i < entries.len() && entries[i].1 && #[trigger] entries[i].0@ == n && !(n.len()
                >= 9 && n.take(9) == seq!['.', 's', 't', 'a', 'g', 'i', 'n', 'g', '-']) by {
            let k = choose|k: int| 0 <= k < f.len() && f[k] == n;
            if last.1 && !is_staging(last.0@) && k == g.len() {
                assert(entries[entries.len() - 1].0@ == n);
            } else {
                assert(f[k] == g[k]);
                assert(g.contains(n));
                let i = choose|i: int|
                    0 <= i < init.len() && init[i].1 && #[trigger] init[i].0@ == n && !(n.len()
                        >= 9 && n.take(9) == seq!['.', 's', 't', 'a', 'g', 'i', 'n', 'g', '-']);
                assert(entries[i] == init[i]);
            }
        }
    }
}

/// Is this the name of a staging directory?
fn staging_name(name: &str) -> (r: bool)
    ensures
        r == is_staging(name@),
{
    let v = chars_of(name);
    if v.len() < 9 {
        return false;
    }
    let prefix: Vec<char> = vec!['.', 's', 't', 'a', 'g', 'i', 'n', 'g', '-'];
    assert(prefix@ =~= staging_prefix());
    let head = slice_chars(&v, 0, 9);
    same_chars(&head, &prefix)
}

/// Sort names into `name_order`.
fn sort_names(names: Vec<String>) -> (r: Vec<String>)
    ensures
        exists|p: Seq<int>| rearranged(texts(r@), texts(names@), p),
        sorted_names(texts(r@)),
{
    let mut out: Vec<String> = Vec::new();
    let ghost mut p: Seq<int> = Seq::empty();
    let mut k: usize = 0;
    while k < names.len()
        invariant
            k <= names@.len(),
            rearranged(texts(out@), texts(names@).take(k as int), p),
            sorted_names(texts(out@)),
        decreases names@.len() - k,
    {
        let x = names[k].clone();
        let mut pos = out.len();
        let mut moving = true;
        while moving && pos > 0
            invariant
                pos <= out@.len(),
                forall|j: int| pos <= j < out@.len() ==> name_order(out@[j]@, x@) == Order::Greater,
                !moving ==> pos > 0 && not_above(name_order(out@[pos - 1]@, x@)),
            decreases pos + if moving { 1int } else { 0int },
        {
            let o = name_order_exec(out[pos - 1].as_str(), x.as_str());
            match o {
                Order::Greater => {
                    pos -= 1;
                },
                _ => {
                    moving = false;
                },
            }
        }
        let ghost old_out = texts(out@);
        out.insert(pos, x);
        proof {
            let n = texts(out@);
            assert(n =~= old_out.insert(pos as int, x@));
            let q = p.insert(pos as int, k as int);
            assert(texts(names@).take(k + 1) =~= texts(names@).take(k as int).push(x@));
            lemma_rearranged_insert(old_out, texts(names@).take(k as int), p, pos as int, x@);
            assert forall|i: int, j: int| 0 <= i < j < n.len() implies not_above(
                #[trigger] name_order(n[i], n[j]),
            ) by {
                if j == pos {
                    lemma_name_order(n[i], old_out[pos - 1], x@);
                    if i < pos - 1 {
                        assert(not_above(name_order(old_out[i], old_out[pos - 1])));
                    }
                } else if i == pos {
                    lemma_name_order(old_out[j - 1], x@, x@);
                    assert(name_order(old_out[j - 1], x@) == Order::Greater);
                } else {
                    let a = if i < pos {
                        i
                    } else {
                        i - 1
                    };
                    let b = if j < pos {
                        j
                    } else {
                        j - 1
                    };
                    assert(n[i] == old_out[a] && n[j] == old_out[b]);
                }
            }
            p = q;
        }
        k += 1;
    }
    assert(texts(names@).take(names@.len() as int) =~= texts(names@));
    out
}

/// The installed versions among a runtime directory's entries, newest last.
/// Each entry is `(name, complete)`, where `complete` says whether the
/// entry's `bin.js` is a file: a directory without it is a torn install, and
/// a staging directory is an install not yet promoted; neither is a usable
/// version. Names of equal version come in text order.
pub fn installed_versions(entries: &Vec<(String, bool)>) -> (r: Vec<String>)
    ensures
        exists|p: Seq<int>| rearranged(texts(r@), flagged(entries@), p),
        sorted_names(texts(r@)),
        oldest_names_first(texts(r@)),
{
    let mut found: Vec<String> = Vec::new();
    let mut i: usize = 0;
    while i < entries.len()
        invariant
            i <= entries@.len(),
            texts(found@) == flagged(entries@.take(i as int)),
        decreases entries@.len() - i,
    {
        assert(entries@.take(i + 1).drop_last() =~= entries@.take(i as int));
        if entries[i].1 && !staging_name(entries[i].0.as_str()) {
            found.push(entries[i].0.clone());
            assert(texts(found@) =~= flagged(entries@.take(i as int)).push(entries@[i as int].0@));
        }
        i += 1;
    }
    assert(entries@.take(entries@.len() as int) =~= entries@);
    let r = sort_names(found);
    proof {
        lemma_sorted_names(texts(r@));
    }
    r
}


// ---------------------------------------------------------------------------
// Runnable runtimes
// ---------------------------------------------------------------------------

/// A runtime the app can start.
pub struct Runtime {
    pub version: String,
    pub bin: FsPath,
    /// Shipped inside the installer rather than downloaded into app data.
    pub bundled: bool,
}

/// A runtime as values: version, entry point, and whether it is bundled.
pub type RuntimeView = (Seq<char>, Seq<Seq<char>>, bool);

impl View for Runtime {
    type V = RuntimeView;

    open spec fn view(&self) -> RuntimeView {
        (self.version@, self.bin@, self.bundled)
    }
}

impl Runtime {
    /// A copy of this runtime.
    pub fn duplicate(&self) -> (r: Runtime)
        ensures
            r@ == self@,
    {
        Runtime { version: self.version.clone(), bin: self.bin.duplicate(), bundled: self.bundled }
    }
}

/// The view of an optional runtime.
pub open spec fn opt_runtime_view(o: Option<Runtime>) -> Option<RuntimeView> {
    match o {
        Some(r) => Some(r@),
        None => None,
    }
}

/// The views of a vector of runtimes.
pub open spec fn runtime_views(v: Seq<Runtime>) -> Seq<RuntimeView> {
    v.map_values(|r: Runtime| r@)
}

/// The runtime shipped inside the installer, given the contents of its
/// `version.txt` and its entry point: none when the version is blank. The
/// version is the file's text without surrounding whitespace.
pub fn bundled_runtime(stamp: &str, bin: FsPath) -> (r: Option<Runtime>)
    ensures
        trim(stamp@).len() == 0 <==> r is None,
        r matches Some(rt) ==> rt@ == (trim(stamp@), bin@, true),
{
    let version = trim_chars(&chars_of(stamp));
    if version.len() == 0 {
        None
    } else {
        Some(Runtime { version: string_of(&version), bin, bundled: true })
    }
}

/// The entry point `<runtimes>/<version>/node_modules/@deepseek-ai/dsh/lib/bin.js`.
pub open spec fn installed_bin(runtimes: Seq<Seq<char>>, version: Seq<char>) -> Seq<Seq<char>> {
    runtimes + seq![version, "node_modules"@, "@deepseek-ai"@, "dsh"@, "lib"@, "bin.js"@]
}

/// The downloaded runtimes, one per installed version, in the given order.
pub open spec fn downloaded(installed: Seq<Seq<char>>, runtimes: Seq<Seq<char>>) -> Seq<RuntimeView> {
    installed.map_values(|v: Seq<char>| (v, installed_bin(runtimes, v), false))
}

/// Whether some runtime has this version.
pub open spec fn has_version(all: Seq<RuntimeView>, version: Seq<char>) -> bool {
    exists|i: int| 0 <= i < all.len() && (#[trigger] all[i]).0 == version
}

/// Every runtime that can start, before sorting: the downloaded ones, then
/// the bundled one unless a downloaded copy of its version exists (that copy
/// wins: it is writable, and there is no reason to keep two).
pub open spec fn candidates(
    installed: Seq<Seq<char>>,
    runtimes: Seq<Seq<char>>,
    bundled: Option<RuntimeView>,
) -> Seq<RuntimeView> {
    let all = downloaded(installed, runtimes);
    match bundled {
        Some(b) => if has_version(all, b.0) {
            all
        } else {
            all.push(b)
        },
        None => all,
    }
}

/// The versions of some runtimes.
pub open spec fn versions_of(rs: Seq<RuntimeView>) -> Seq<Seq<char>> {
    rs.map_values(|r: RuntimeView| r.0)
}

/// Runtimes oldest first.
pub open spec fn oldest_first(rs: Seq<RuntimeView>) -> bool {
    forall|i: int, j: int|
        0 <= i < j < rs.len() ==> not_above(#[trigger] version_order(rs[i].0, rs[j].0))
}

/// Runtimes of equal rank keep the order they came in (`p` maps positions
/// of the result to positions of the input).
pub open spec fn stable(rs: Seq<RuntimeView>, p: Seq<int>) -> bool {
    forall|i: int, j: int|
        0 <= i < j < rs.len() && #[trigger] version_order(rs[i].0, rs[j].0) == Order::Equal ==> p[i]
            < p[j]
}

proof fn lemma_stable_insert(old_out: Seq<RuntimeView>, p: Seq<int>, k: int, pos: int, x: RuntimeView)
    requires
        p.len() == old_out.len(),
        forall|i: int| 0 <= i < p.len() ==> 0 <= #[trigger] p[i] < k,
        stable(old_out, p),
        0 <= pos <= old_out.len(),
        forall|j: int| pos <= j < old_out.len() ==> version_order(old_out[j].0, x.0) == Order::Greater,
    ensures
        stable(old_out.insert(pos, x), p.insert(pos, k)),
{
    let n = old_out.insert(pos, x);
    let q = p.insert(pos, k);
    assert forall|i: int, j: int|
        0 <= i < j < n.len() && #[trigger] version_order(n[i].0, n[j].0) == Order::Equal implies q[i]
        < q[j] by {
        if i == pos {
            law_compare_antisymmetric(old_out[j - 1].0, x.0);
        } else if j == pos {
            assert(q[i] == p[i]);
        } else {
            let a = if i < pos {
                i
            } else {
                i - 1
            };
            let b = if j < pos {
                j
            } else {
                j - 1
            };
            assert(n[i] == old_out[a] && n[j] == old_out[b]);
            assert(q[i] == p[a] && q[j] == p[b]);
        }
    }
}

proof fn lemma_sorted_insert(
    old_out: Seq<RuntimeView>,
    all: Seq<RuntimeView>,
    p: Seq<int>,
    k: int,
    pos: int,
    x: RuntimeView,
)
    requires
        0 <= k < all.len(),
        all[k] == x,
        rearranged(old_out, all.take(k), p),
        oldest_first(old_out),
        0 <= pos <= old_out.len(),
        forall|j: int| pos <= j < old_out.len() ==> version_order(old_out[j].0, x.0) == Order::Greater,
        pos > 0 ==> not_above(version_order(old_out[pos - 1].0, x.0)),
    ensures
        oldest_first(old_out.insert(pos, x)),
{
    let n = old_out.insert(pos, x);
    {
        assert forall|i: int, j: int| 0 <= i < j < n.len() implies not_above(
            #[trigger] version_order(n[i].0, n[j].0),
        ) by {
            if j == pos {
                if i < pos - 1 {
                    assert(not_above(version_order(old_out[i].0, old_out[pos - 1].0)));
                    law_compare_transitive(old_out[i].0, old_out[pos - 1].0, x.0);
                }
            } else if i == pos {
                law_compare_antisymmetric(old_out[j - 1].0, x.0);
            } else {
                let a = if i < pos {
                    i
                } else {
                    i - 1
                };
                let b = if j < pos {
                    j
                } else {
                    j - 1
                };
                assert(n[i] == old_out[a] && n[j] == old_out[b]);
            }
        }
    }
}

/// A stable sort by version (`slice::sort_by` with `compare`): oldest first,
/// and runtimes of equal rank in the order they came in.
fn sort_runtimes(items: Vec<Runtime>) -> (r: Vec<Runtime>)
    ensures
        exists|p: Seq<int>|
            rearranged(runtime_views(r@), runtime_views(items@), p) && stable(
                runtime_views(r@),
                p,
            ),
        oldest_first(runtime_views(r@)),
{
    let ghost all = runtime_views(items@);
    let mut out: Vec<Runtime> = Vec::new();
    let ghost mut p: Seq<int> = Seq::empty();
    let mut k: usize = 0;
    while k < items.len()
        invariant
            k <= items@.len(),
            all == runtime_views(items@),
            rearranged(runtime_views(out@), all.take(k as int), p),
            stable(runtime_views(out@), p),
            oldest_first(runtime_views(out@)),
        decreases items@.len() - k,
    {
        let x = items[k].duplicate();
        let xv = x.version.clone();
        let mut pos = out.len();
        let mut moving = true;
        while moving && pos > 0
            invariant
                pos <= out@.len(),
                xv@ == x@.0,
                forall|j: int|
                    pos <= j < out@.len() ==> version_order(out@[j]@.0, x@.0) == Order::Greater,
                !moving ==> pos > 0 && not_above(version_order(out@[pos - 1]@.0, x@.0)),
            decreases pos + if moving {
                1int
            } else {
                0int
            },
        {
            let o = version_order_exec(out[pos - 1].version.as_str(), xv.as_str());
            match o {
                Order::Greater => {
                    pos -= 1;
                },
                _ => {
                    moving = false;
                },
            }
        }
        let ghost old_out = runtime_views(out@);
        let ghost xv_ = x@;
        out.insert(pos, x);
        proof {
            assert(runtime_views(out@) =~= old_out.insert(pos as int, xv_));
            assert(xv_ == all[k as int]);
            assert(all.take(k + 1) =~= all.take(k as int).push(xv_));
            lemma_rearranged_insert(old_out, all.take(k as int), p, pos as int, xv_);
            lemma_stable_insert(old_out, p, k as int, pos as int, xv_);
            lemma_sorted_insert(old_out, all, p, k as int, pos as int, xv_);
            p = p.insert(pos as int, k as int);
        }
        k += 1;
    }
    assert(all.take(items@.len() as int) =~= all);
    out
}

/// Every runtime this installation can start, oldest first: the installed
/// versions (their entry points under `runtimes`) and the bundled runtime,
/// if any, unless a downloaded copy of its version exists.
pub fn available(installed: &Vec<String>, runtimes: &FsPath, bundled: Option<Runtime>) -> (r: Vec<
    Runtime,
>)
    ensures
        ({
            let c = candidates(
                texts(installed@),
                runtimes@,
                opt_runtime_view(bundled),
            );
            &&& exists|p: Seq<int>| rearranged(runtime_views(r@), c, p) && stable(runtime_views(r@), p)
            &&& oldest_first(runtime_views(r@))
        }),
{
    let mut all: Vec<Runtime> = Vec::new();
    let mut i: usize = 0;
    while i < installed.len()
        invariant
            i <= installed@.len(),
            runtime_views(all@) == downloaded(texts(installed@).take(i as int), runtimes@),
        decreases installed@.len() - i,
    {
        let version = installed[i].clone();
        let bin = bin_path(runtimes, version.as_str());
        let ghost before = runtime_views(all@);
        let ghost item: RuntimeView = (version@, bin@, false);
        all.push(Runtime { version, bin, bundled: false });
        let ghost t = texts(installed@).take(i as int);
        assert(texts(installed@).take(i + 1) =~= t.push(installed@[i as int]@));
        assert(runtime_views(all@) =~= before.push(item));
        assert(downloaded(t.push(installed@[i as int]@), runtimes@) =~= downloaded(t, runtimes@).push(
            item,
        ));
        i += 1;
    }
    assert(texts(installed@).take(installed@.len() as int) =~= texts(installed@));
    let ghost down = runtime_views(all@);
    if let Some(baseline) = bundled {
        let mut seen = false;
        let mut j: usize = 0;
        while j < all.len()
            invariant
                j <= all@.len(),
                down == runtime_views(all@),
                seen <==> exists|m: int| 0 <= m < j && (#[trigger] down[m]).0 == baseline@.0,
            decreases all@.len() - j,
        {
            assert(down[j as int].0 == all@[j as int].version@);
            if all[j].version == baseline.version {
                seen = true;
            }
            j += 1;
        }
        if !seen {
            all.push(baseline);
            assert(runtime_views(all@) =~= down.push(baseline@));
        } else {
            assert(has_version(down, baseline@.0));
        }
    }
    sort_runtimes(all)
}

/// The newest runtime available, which is the one to run: the last of
/// `available`. It is one of the candidates; no candidate ranks above it;
/// and of candidates that rank level with it, it is the last.
pub fn newest(installed: &Vec<String>, runtimes: &FsPath, bundled: Option<Runtime>) -> (r: Option<
    Runtime,
>)
    ensures
        ({
            let c = candidates(
                texts(installed@),
                runtimes@,
                opt_runtime_view(bundled),
            );
            &&& r is None <==> c.len() == 0
            &&& r matches Some(x) ==> exists|k: int|
                0 <= k < c.len() && c[k] == x@ && (forall|j: int|
                    0 <= j < c.len() && #[trigger] version_order(c[j].0, x@.0) == Order::Equal
                        ==> j <= k) && (forall|j: int|
                    0 <= j < c.len() ==> not_above(#[trigger] version_order(c[j].0, x@.0)))
        }),
{
    let ghost c = candidates(
        texts(installed@),
        runtimes@,
        opt_runtime_view(bundled),
    );
    let mut all = available(installed, runtimes, bundled);
    let ghost v = runtime_views(all@);
    let last = all.pop();
    proof {
        let p = choose|p: Seq<int>| rearranged(v, c, p) && stable(v, p);
        if v.len() > 0 {
            let n = v.len() - 1;
            let k = p[n];
            assert(v[n] == c[k]);
            assert forall|j: int|
                0 <= j < c.len() && #[trigger] version_order(c[j].0, v[n].0)
                    == Order::Equal implies j <= k by {
                assert(hits(p, j));
                let i = choose|i: int| 0 <= i < p.len() && #[trigger] p[i] == j;
                if i < n {
                    assert(v[i] == c[j]);
                    assert(version_order(v[i].0, v[n].0) == Order::Equal);
                }
            }
            {
                assert forall|j: int| 0 <= j < c.len() implies not_above(
                    #[trigger] version_order(c[j].0, v[n].0),
                ) by {
                    assert(hits(p, j));
                    let i = choose|i: int| 0 <= i < p.len() && #[trigger] p[i] == j;
                    assert(v[i] == c[j]);
                    if i < n {
                        assert(not_above(version_order(v[i].0, v[n].0)));
                    } else {
                        crate::version::law_compare_reflexive(v[n].0);
                    }
                }
            }
        }
    }
    last
}

/// What to say when an old version could not be removed.
pub fn prune_error_message(stale: &str, cause: &str) -> (r: String)
    ensures
        r@ == "cannot remove old runtime "@ + stale@ + ": "@ + cause@,
{
    let mut r = String::from_str("cannot remove old runtime ");
    r.append(stale);
    r.append(": ");
    r.append(cause);
    r
}

/// The versions to remove so that only the newest `keep` remain: all but
/// the last `keep` of the versions put in ascending order (`name_order`).
/// Every version removed ranks at or below every version kept.
pub fn stale_versions(versions: &Vec<String>, keep: usize) -> (r: Vec<String>)
    ensures
        exists|s: Seq<Seq<char>>, p: Seq<int>|
            {
                &&& #[trigger] rearranged(s, texts(versions@), p)
                &&& sorted_names(s)
                &&& s.len() <= keep ==> r@.len() == 0
                &&& s.len() > keep ==> texts(r@) == s.take(s.len() - keep)
                &&& forall|i: int, j: int|
                    0 <= i < s.len() - keep <= j < s.len() ==> not_above(
                        #[trigger] version_order(s[i], s[j]),
                    )
            },
{
    let mut all: Vec<String> = Vec::new();
    let mut i: usize = 0;
    while i < versions.len()
        invariant
            i <= versions@.len(),
            texts(all@) == texts(versions@).take(i as int),
        decreases versions@.len() - i,
    {
        let c = versions[i].clone();
        let ghost before = all@;
        all.push(c);
        assert(texts(all@) =~= texts(before).push(c@));
        assert(texts(versions@).take(i + 1) =~= texts(versions@).take(i as int).push(
            texts(versions@)[i as int],
        ));
        i += 1;
    }
    assert(texts(versions@).take(versions@.len() as int) =~= texts(versions@));
    let sorted = sort_names(all);
    let ghost s = texts(sorted@);
    proof {
        lemma_sorted_names(s);
    }
    let mut r: Vec<String> = Vec::new();
    if sorted.len() > keep {
        let end = sorted.len() - keep;
        let mut k: usize = 0;
        while k < end
            invariant
                end == sorted@.len() - keep,
                k <= end,
                s == texts(sorted@),
                texts(r@) == s.take(k as int),
            decreases end - k,
        {
            let c = sorted[k].clone();
            let ghost before = r@;
            r.push(c);
            assert(texts(r@) =~= texts(before).push(c@));
            assert(s.take(k + 1) =~= s.take(k as int).push(s[k as int]));
            k += 1;
        }
    }
    let ghost p = choose|p: Seq<int>| rearranged(s, texts(versions@), p);
    assert(rearranged(s, texts(versions@), p));
    r
}

} // verus!
