//! Choosing the Node.js runtime that everything else runs on.
//!
//! Release builds ship their own node beside the application; the copy on
//! PATH is the fallback. Either must satisfy the harness's declared engine
//! range, `^22.19.0 || >=24`.
use vstd::prelude::*;

use crate::paths::FsPath;
use crate::text::{
    chars_of, decimal, is_digit, lemma_decimal, lemma_parse_decimal, parse_u32, parse_uint,
    slice_chars, split, split_chars, views,
};
use crate::version::{lemma_release_fields, release_text};

verus! {

/// The bundled node among the resources, on Windows.
pub const BUNDLED_WINDOWS: &'static str = "node/node.exe";

/// The bundled node among the resources, elsewhere.
pub const BUNDLED_UNIX: &'static str = "node/node";

/// Where a located node came from, so the log can say which one is in use.
#[derive(Clone, Copy, Debug, PartialEq, Eq, Structural)]
pub enum Origin {
    Bundled,
    System,
}

/// `s.trim_start_matches('v')`.
pub open spec fn without_leading_v(s: Seq<char>) -> Seq<char>
    decreases s.len(),
{
    if s.len() > 0 && s[0] == 'v' {
        without_leading_v(s.drop_first())
    } else {
        s
    }
}

/// What `p.parse::<u32>().ok().unwrap_or(0)` gives.
pub open spec fn u32_or_zero(p: Seq<char>) -> nat {
    match parse_uint(p, u32::MAX as int) {
        Some(n) => n,
        None => 0,
    }
}

/// The major version of a `vMAJOR.MINOR.PATCH` report (0 when unreadable).
pub open spec fn reported_major(s: Seq<char>) -> nat {
    u32_or_zero(split(without_leading_v(s), '.')[0])
}

/// The minor version of a `vMAJOR.MINOR.PATCH` report (0 when absent or
/// unreadable).
pub open spec fn reported_minor(s: Seq<char>) -> nat {
    let f = split(without_leading_v(s), '.');
    if f.len() > 1 {
        u32_or_zero(f[1])
    } else {
        0
    }
}

/// The harness's engine range: `^22.19.0 || >=24`.
pub open spec fn engine_supported(s: Seq<char>) -> bool {
    reported_major(s) >= 24 || (reported_major(s) == 22 && reported_minor(s) >= 19)
}

/// Every node whose major version is 24 or more is supported, and a node
/// on line 22 is supported from minor 19 on; no other is.
pub proof fn law_engine_range(s: Seq<char>)
    ensures
        reported_major(s) >= 24 ==> engine_supported(s),
        reported_major(s) == 22 && reported_minor(s) >= 19 ==> engine_supported(s),
        reported_major(s) < 22 ==> !engine_supported(s),
        reported_major(s) == 23 ==> !engine_supported(s),
        reported_major(s) == 22 && reported_minor(s) < 19 ==> !engine_supported(s),
{
}

/// For a report `vMAJOR.MINOR.PATCH` of three numbers, the range is
/// `^22.19.0 || >=24`: every major from 24 on, and 22 from minor 19 on.
pub proof fn law_engine_range_of_report(major: nat, minor: nat, patch: nat)
    requires
        major <= u32::MAX,
        minor <= u32::MAX,
        patch <= u32::MAX,
    ensures
        engine_supported(seq!['v'] + release_text(major, minor, patch)) <==> (major >= 24 || (
        major == 22 && minor >= 19)),
        engine_supported(release_text(major, minor, patch)) <==> (major >= 24 || (major == 22
            && minor >= 19)),
{
    let t = release_text(major, minor, patch);
    let s = seq!['v'] + t;
    lemma_release_fields(major, minor, patch);
    lemma_decimal(major);
    assert(is_digit(decimal(major)[0]));
    assert(t[0] != 'v');
    assert(without_leading_v(t) == t);
    assert(s.drop_first() =~= t);
    assert(without_leading_v(s) == without_leading_v(t));
    lemma_parse_decimal(major, u32::MAX as int);
    lemma_parse_decimal(minor, u32::MAX as int);
    assert(reported_major(t) == major);
    assert(reported_minor(t) == minor);
}

/// Does this `vMAJOR.MINOR.PATCH` satisfy the harness's engine range?
pub fn is_supported(reported: &str) -> (r: bool)
    ensures
        r == engine_supported(reported@),
{
    let v = chars_of(reported);
    let mut start: usize = 0;
    assert(v@.skip(0) =~= v@);
    while start < v.len() && v[start] == 'v'
        invariant
            start <= v@.len(),
            without_leading_v(v@) == without_leading_v(v@.skip(start as int)),
        decreases v@.len() - start,
    {
        assert(v@.skip(start as int).drop_first() =~= v@.skip(start + 1));
        start += 1;
    }
    let ghost rest = v@.skip(start as int);
    assert(without_leading_v(rest) == rest);
    let tail = slice_chars(&v, start, v.len());
    let parts = split_chars(&tail, '.');
    assert(tail@ =~= rest);
    assert(views(parts@)[0] == parts@[0]@);
    let major: u32 = match parse_u32(&parts[0]) {
        Some(n) => n,
        None => 0,
    };
    let minor: u32 = if parts.len() > 1 {
        assert(views(parts@)[1] == parts@[1]@);
        match parse_u32(&parts[1]) {
            Some(n) => n,
            None => 0,
        }
    } else {
        0
    };
    major >= 24 || (major == 22 && minor >= 19)
}

/// Why no usable node was found.
pub enum NodeError {
    /// No node on PATH; holds what went wrong looking for one.
    NotFound(String),
    /// The node on PATH would not report its version; holds why.
    VersionUnknown(String),
    /// The node on PATH reports this version, outside the engine range.
    TooOld(String),
}

impl NodeError {
    /// What to tell the user.
    pub fn message(&self) -> (r: String)
        ensures
            self matches NodeError::NotFound(cause) ==> r@ == "Node.js was not found. Install Node.js 22.19+ or 24+ (https://nodejs.org) and start the app again.: "@ + cause@,
            self matches NodeError::VersionUnknown(cause) ==> r@ == cause@,
            self matches NodeError::TooOld(found) ==> r@ == "Node.js "@ + found@ + " is too old: DeepSeek Harness needs 22.19+ or 24+."@,
    {
        match self {
            NodeError::NotFound(cause) => {
                let mut r = String::from_str(
                    "Node.js was not found. Install Node.js 22.19+ or 24+ (https://nodejs.org) and start the app again.: ",
                );
                r.append(cause.as_str());
                r
            },
            NodeError::VersionUnknown(cause) => cause.clone(),
            NodeError::TooOld(found) => {
                let mut r = String::from_str("Node.js ");
                r.append(found.as_str());
                r.append(" is too old: DeepSeek Harness needs 22.19+ or 24+.");
                r
            },
        }
    }
}

/// After asking the bundled node its version: use it when it answered with a
/// supported version; otherwise (`None`) fall back to PATH. A bundled binary
/// that will not run is a packaging fault, not a reason to fail.
pub fn bundled_choice(bundled: FsPath, version: Result<String, String>) -> (r: Option<(FsPath, Origin)>)
    ensures
        r is Some <==> (version matches Ok(v) && engine_supported(v@)),
        r matches Some(c) ==> c.0@ == bundled@ && c.1 == Origin::Bundled,
{
    match version {
        Ok(v) => {
            if is_supported(v.as_str()) {
                Some((bundled, Origin::Bundled))
            } else {
                None
            }
        },
        Err(_) => None,
    }
}

/// After finding node on PATH and asking its version: use it when the version
/// is supported, otherwise say it is too old.
pub fn system_choice(found: FsPath, version: String) -> (r: Result<(FsPath, Origin), NodeError>)
    ensures
        r is Ok <==> engine_supported(version@),
        r matches Ok(c) ==> c.0@ == found@ && c.1 == Origin::System,
        r matches Err(e) ==> (e matches NodeError::TooOld(v) && v@ == version@),
{
    if is_supported(version.as_str()) {
        Ok((found, Origin::System))
    } else {
        Err(NodeError::TooOld(version))
    }
}

} // verus!
