//! Comparing version strings the way the update logic needs.
//!
//! A version is `MAJOR.MINOR.PATCH`, optionally followed by `-` and a
//! prerelease. The numeric core is compared numerically, so `0.1.10` is newer
//! than `0.1.2`; a release outranks every prerelease of the same core; and
//! prereleases are compared identifier by identifier as semver does:
//! numerically where both identifiers are numbers, so `rc.10` is newer than
//! `rc.8`; as text where neither is; and a number below a word.
use std::cmp::Ordering;
use vstd::prelude::*;

use crate::text::{
    chars_of, code, code_of, decimal, index_from, index_of, lemma_decimal, lemma_index_from,
    lemma_parse_decimal, lemma_split_free, lemma_split_join, lemma_split_nonempty, parse_u64,
    parse_u64_spec,
    slice_chars, split, split_chars, string_of, u64_or_zero, views,
};

verus! {

// ---------------------------------------------------------------------------
// The model
// ---------------------------------------------------------------------------

/// The outcome of comparing two values, left against right.
#[derive(Clone, Copy, Debug, PartialEq, Eq, Structural)]
pub enum Order {
    Less,
    Equal,
    Greater,
}

/// The text before the first `-` (all of it when there is none).
pub open spec fn core_text(v: Seq<char>) -> Seq<char> {
    match index_from(v, '-', 0) {
        Some(i) => v.take(i),
        None => v,
    }
}

/// The text after the first `-` (empty when there is none).
pub open spec fn prerelease_text(v: Seq<char>) -> Seq<char> {
    match index_from(v, '-', 0) {
        Some(i) => v.skip(i + 1),
        None => Seq::empty(),
    }
}

/// Field `k` of the dotted core, read as a number; a missing field and a field
/// that is not a `u64` both count as 0.
pub open spec fn core_field(v: Seq<char>, k: int) -> nat {
    let fields = split(core_text(v), '.');
    if k < fields.len() {
        u64_or_zero(fields[k])
    } else {
        0
    }
}

/// The numeric core `[MAJOR, MINOR, PATCH]`.
pub open spec fn core_numbers(v: Seq<char>) -> Seq<nat> {
    seq![core_field(v, 0), core_field(v, 1), core_field(v, 2)]
}

/// The order of two numbers.
pub open spec fn order_of(x: int, y: int) -> Order {
    if x < y {
        Order::Less
    } else if x > y {
        Order::Greater
    } else {
        Order::Equal
    }
}

/// The opposite order.
pub open spec fn reversed(o: Order) -> Order {
    match o {
        Order::Less => Order::Greater,
        Order::Equal => Order::Equal,
        Order::Greater => Order::Less,
    }
}

/// Lexicographic order of two sequences of numbers.
pub open spec fn numbers_order(a: Seq<nat>, b: Seq<nat>) -> Order
    decreases a.len(),
{
    if a.len() == 0 && b.len() == 0 {
        Order::Equal
    } else if a.len() == 0 {
        Order::Less
    } else if b.len() == 0 {
        Order::Greater
    } else if order_of(a[0] as int, b[0] as int) != Order::Equal {
        order_of(a[0] as int, b[0] as int)
    } else {
        numbers_order(a.drop_first(), b.drop_first())
    }
}

/// The order of text: lexicographic by code point, a proper prefix first.
/// For UTF-8 this is the byte order by which `str` values compare.
pub open spec fn text_order(x: Seq<char>, y: Seq<char>) -> Order
    decreases x.len(),
{
    if x.len() == 0 && y.len() == 0 {
        Order::Equal
    } else if x.len() == 0 {
        Order::Less
    } else if y.len() == 0 {
        Order::Greater
    } else if order_of(code(x[0]), code(y[0])) != Order::Equal {
        order_of(code(x[0]), code(y[0]))
    } else {
        text_order(x.drop_first(), y.drop_first())
    }
}

/// The order of two prerelease identifiers, as semver has it: numerically
/// when both are numbers, as text when neither is, and a number below a
/// word. An empty identifier, which semver leaves undefined, compares as
/// text: below every other.
pub open spec fn ident_order(x: Seq<char>, y: Seq<char>) -> Order {
    match (parse_u64_spec(x), parse_u64_spec(y)) {
        (Some(m), Some(n)) => order_of(m as int, n as int),
        (Some(_), None) => if y.len() == 0 {
            text_order(x, y)
        } else {
            Order::Less
        },
        (None, Some(_)) => if x.len() == 0 {
            text_order(x, y)
        } else {
            Order::Greater
        },
        (None, None) => text_order(x, y),
    }
}

/// Identifier lists compare pairwise; when one runs out first it is the lower.
pub open spec fn idents_order(l: Seq<Seq<char>>, r: Seq<Seq<char>>) -> Order
    decreases l.len(),
{
    if l.len() == 0 && r.len() == 0 {
        Order::Equal
    } else if l.len() == 0 {
        Order::Less
    } else if r.len() == 0 {
        Order::Greater
    } else if ident_order(l[0], r[0]) != Order::Equal {
        ident_order(l[0], r[0])
    } else {
        idents_order(l.drop_first(), r.drop_first())
    }
}

/// The order of two prereleases: their dot-separated identifiers in turn.
pub open spec fn prerelease_order(a: Seq<char>, b: Seq<char>) -> Order {
    idents_order(split(a, '.'), split(b, '.'))
}

/// The order of two versions: the numeric core first; on a tie a release
/// (no prerelease) outranks a prerelease; two prereleases compare by
/// `prerelease_order`.
pub open spec fn version_order(a: Seq<char>, b: Seq<char>) -> Order {
    let core = numbers_order(core_numbers(a), core_numbers(b));
    let pa = prerelease_text(a);
    let pb = prerelease_text(b);
    if core != Order::Equal {
        core
    } else if pa.len() == 0 && pb.len() != 0 {
        Order::Greater
    } else if pa.len() != 0 && pb.len() == 0 {
        Order::Less
    } else {
        prerelease_order(pa, pb)
    }
}

// ---------------------------------------------------------------------------
// The implementation
// ---------------------------------------------------------------------------

/// `1.2.3-rc.4` becomes `([1, 2, 3], "rc.4")`.
pub fn split_version(version: &str) -> (r: ([u64; 3], String))
    ensures
        r.0@.len() == 3,
        forall|k: int| 0 <= k < 3 ==> r.0@[k] == core_field(version@, k),
        r.1@ == prerelease_text(version@),
{
    let v = chars_of(version);
    proof {
        lemma_index_from(v@, '-', 0);
    }
    let (core, pre) = match index_of(&v, '-', 0) {
        Some(i) => {
            assert(index_from(v@, '-', 0) == Some(i as int));
            (slice_chars(&v, 0, i), slice_chars(&v, i + 1, v.len()))
        },
        None => (slice_chars(&v, 0, v.len()), Vec::new()),
    };
    assert(core@ == core_text(version@));
    assert(pre@ =~= prerelease_text(version@));
    let fields = split_chars(&core, '.');
    let mut numbers: [u64; 3] = [0, 0, 0];
    let mut k: usize = 0;
    while k < 3
        invariant
            k <= 3,
            numbers@.len() == 3,
            views(fields@) == split(core_text(version@), '.'),
            forall|j: int| 0 <= j < k ==> numbers@[j] == core_field(version@, j),
            forall|j: int| k <= j < 3 ==> numbers@[j] == 0,
        decreases 3 - k,
    {
        if k < fields.len() {
            let n = match parse_u64(&fields[k]) {
                Some(n) => n,
                None => 0,
            };
            assert(views(fields@)[k as int] == fields@[k as int]@);
            numbers[k] = n;
        }
        k += 1;
    }
    (numbers, string_of(&pre))
}

/// The order of two numbers.
fn order_u64(x: u64, y: u64) -> (r: Order)
    ensures
        r == order_of(x as int, y as int),
{
    if x < y {
        Order::Less
    } else if x > y {
        Order::Greater
    } else {
        Order::Equal
    }
}

/// The order of two runs of text.
pub fn text_order_exec(x: &[char], y: &[char]) -> (r: Order)
    ensures
        r == text_order(x@, y@),
{
    let mut i: usize = 0;
    assert(x@.skip(0) =~= x@);
    assert(y@.skip(0) =~= y@);
    while i < x.len() && i < y.len()
        invariant
            i <= x@.len(),
            i <= y@.len(),
            text_order(x@, y@) == text_order(x@.skip(i as int), y@.skip(i as int)),
        decreases x@.len() - i,
    {
        let o = order_u64(code_of(x[i]) as u64, code_of(y[i]) as u64);
        assert(x@.skip(i as int)[0] == x@[i as int]);
        assert(y@.skip(i as int)[0] == y@[i as int]);
        match o {
            Order::Equal => {},
            _ => {
                return o;
            },
        }
        assert(x@.skip(i as int).drop_first() =~= x@.skip(i + 1));
        assert(y@.skip(i as int).drop_first() =~= y@.skip(i + 1));
        i += 1;
    }
    if i < x.len() {
        Order::Greater
    } else if i < y.len() {
        Order::Less
    } else {
        Order::Equal
    }
}

/// The order of two prerelease identifiers.
fn ident_order_exec(x: &[char], y: &[char]) -> (r: Order)
    ensures
        r == ident_order(x@, y@),
{
    match (parse_u64(x), parse_u64(y)) {
        (Some(m), Some(n)) => order_u64(m, n),
        (Some(_), None) => if y.len() == 0 {
            text_order_exec(x, y)
        } else {
            Order::Less
        },
        (None, Some(_)) => if x.len() == 0 {
            text_order_exec(x, y)
        } else {
            Order::Greater
        },
        (None, None) => text_order_exec(x, y),
    }
}

/// Compare dot-separated prerelease identifiers, as semver orders them.
pub fn prerelease_order_exec(a: &str, b: &str) -> (r: Order)
    ensures
        r == prerelease_order(a@, b@),
{
    let left = split_chars(&chars_of(a), '.');
    let right = split_chars(&chars_of(b), '.');
    let ghost l = views(left@);
    let ghost rr = views(right@);
    let mut i: usize = 0;
    assert(l.skip(0) =~= l);
    assert(rr.skip(0) =~= rr);
    while i < left.len() && i < right.len()
        invariant
            l == views(left@),
            rr == views(right@),
            i <= left@.len(),
            i <= right@.len(),
            prerelease_order(a@, b@) == idents_order(l.skip(i as int), rr.skip(i as int)),
        decreases left@.len() - i,
    {
        let o = ident_order_exec(&left[i], &right[i]);
        assert(l.skip(i as int)[0] == left@[i as int]@);
        assert(rr.skip(i as int)[0] == right@[i as int]@);
        match o {
            Order::Equal => {},
            _ => {
                return o;
            },
        }
        assert(l.skip(i as int).drop_first() =~= l.skip(i + 1));
        assert(rr.skip(i as int).drop_first() =~= rr.skip(i + 1));
        i += 1;
    }
    if i < left.len() {
        Order::Greater
    } else if i < right.len() {
        Order::Less
    } else {
        Order::Equal
    }
}

/// The order of two versions.
pub fn version_order_exec(a: &str, b: &str) -> (r: Order)
    ensures
        r == version_order(a@, b@),
{
    let (a_core, a_pre) = split_version(a);
    let (b_core, b_pre) = split_version(b);
    let ghost ca = core_numbers(a@);
    let ghost cb = core_numbers(b@);
    assert(ca.drop_first().drop_first().drop_first() =~= Seq::<nat>::empty());
    assert(cb.drop_first().drop_first().drop_first() =~= Seq::<nat>::empty());
    let mut k: usize = 0;
    assert(ca.skip(0) =~= ca);
    assert(cb.skip(0) =~= cb);
    while k < 3
        invariant
            k <= 3,
            a_core@.len() == 3,
            b_core@.len() == 3,
            forall|j: int| 0 <= j < 3 ==> a_core@[j] == ca[j],
            forall|j: int| 0 <= j < 3 ==> b_core@[j] == cb[j],
            ca == core_numbers(a@),
            cb == core_numbers(b@),
            numbers_order(ca, cb) == numbers_order(ca.skip(k as int), cb.skip(k as int)),
        decreases 3 - k,
    {
        let o = order_u64(a_core[k], b_core[k]);
        assert(ca.skip(k as int)[0] == ca[k as int]);
        assert(cb.skip(k as int)[0] == cb[k as int]);
        match o {
            Order::Equal => {},
            _ => {
                return o;
            },
        }
        assert(ca.skip(k as int).drop_first() =~= ca.skip(k + 1));
        assert(cb.skip(k as int).drop_first() =~= cb.skip(k + 1));
        k += 1;
    }
    assert(ca.skip(3) =~= Seq::<nat>::empty());
    assert(cb.skip(3) =~= Seq::<nat>::empty());
    let a_release = a_pre.as_str().unicode_len() == 0;
    let b_release = b_pre.as_str().unicode_len() == 0;
    if a_release && !b_release {
        Order::Greater
    } else if !a_release && b_release {
        Order::Less
    } else {
        prerelease_order_exec(a_pre.as_str(), b_pre.as_str())
    }
}


// ---------------------------------------------------------------------------
// Laws of the order
// ---------------------------------------------------------------------------

/// `o` does not put the left value above the right one.
pub open spec fn not_above(o: Order) -> bool {
    o != Order::Greater
}

/// The three facts that make an order transitive, in the form the
/// lexicographic proofs consume.
pub open spec fn chains(ab: Order, bc: Order, ac: Order) -> bool {
    &&& (ab == Order::Less && not_above(bc)) ==> ac == Order::Less
    &&& (not_above(ab) && bc == Order::Less) ==> ac == Order::Less
    &&& (ab == Order::Equal && bc == Order::Equal) ==> ac == Order::Equal
}

pub proof fn lemma_order_of(x: int, y: int, z: int)
    ensures
        order_of(y, x) == reversed(order_of(x, y)),
        order_of(x, x) == Order::Equal,
        chains(order_of(x, y), order_of(y, z), order_of(x, z)),
{
}

pub proof fn lemma_text_order(x: Seq<char>, y: Seq<char>, z: Seq<char>)
    ensures
        text_order(y, x) == reversed(text_order(x, y)),
        text_order(x, x) == Order::Equal,
        chains(text_order(x, y), text_order(y, z), text_order(x, z)),
    decreases x.len(),
{
    if x.len() > 0 && y.len() > 0 && z.len() > 0 {
        lemma_order_of(code(x[0]), code(y[0]), code(z[0]));
        lemma_order_of(code(y[0]), code(z[0]), code(x[0]));
        lemma_text_order(x.drop_first(), y.drop_first(), z.drop_first());
    } else if x.len() > 0 && y.len() > 0 {
        lemma_order_of(code(x[0]), code(y[0]), code(x[0]));
        lemma_text_order(x.drop_first(), y.drop_first(), x.drop_first());
    } else if x.len() > 0 {
        lemma_order_of(code(x[0]), code(x[0]), code(x[0]));
        lemma_text_order(x.drop_first(), x.drop_first(), x.drop_first());
    }
}

proof fn lemma_numbers_order(x: Seq<nat>, y: Seq<nat>, z: Seq<nat>)
    ensures
        numbers_order(y, x) == reversed(numbers_order(x, y)),
        numbers_order(x, x) == Order::Equal,
        chains(numbers_order(x, y), numbers_order(y, z), numbers_order(x, z)),
    decreases x.len(),
{
    if x.len() > 0 && y.len() > 0 && z.len() > 0 {
        lemma_order_of(x[0] as int, y[0] as int, z[0] as int);
        lemma_order_of(y[0] as int, z[0] as int, x[0] as int);
        lemma_numbers_order(x.drop_first(), y.drop_first(), z.drop_first());
    } else if x.len() > 0 && y.len() > 0 {
        lemma_order_of(x[0] as int, y[0] as int, x[0] as int);
        lemma_numbers_order(x.drop_first(), y.drop_first(), x.drop_first());
    } else if x.len() > 0 {
        lemma_order_of(x[0] as int, x[0] as int, x[0] as int);
        lemma_numbers_order(x.drop_first(), x.drop_first(), x.drop_first());
    }
}

proof fn lemma_ident_order(x: Seq<char>, y: Seq<char>, z: Seq<char>)
    ensures
        ident_order(y, x) == reversed(ident_order(x, y)),
        ident_order(x, x) == Order::Equal,
        chains(ident_order(x, y), ident_order(y, z), ident_order(x, z)),
{
    lemma_text_order(x, y, z);
    lemma_text_order(y, x, z);
    lemma_text_order(x, x, x);
    match (parse_u64_spec(x), parse_u64_spec(y), parse_u64_spec(z)) {
        (Some(a), Some(b), Some(c)) => {
            lemma_order_of(a as int, b as int, c as int);
        },
        (Some(a), Some(b), None) => {
            lemma_order_of(a as int, b as int, a as int);
        },
        (Some(a), None, _) => {
            lemma_order_of(a as int, a as int, a as int);
        },
        (None, Some(b), Some(c)) => {
            lemma_order_of(b as int, c as int, b as int);
        },
        _ => {},
    }
}

proof fn lemma_idents_order(l: Seq<Seq<char>>, m: Seq<Seq<char>>, n: Seq<Seq<char>>)
    ensures
        idents_order(m, l) == reversed(idents_order(l, m)),
        idents_order(l, l) == Order::Equal,
        chains(idents_order(l, m), idents_order(m, n), idents_order(l, n)),
    decreases l.len(),
{
    if l.len() > 0 && m.len() > 0 && n.len() > 0 {
        lemma_ident_order(l[0], m[0], n[0]);
        lemma_ident_order(m[0], n[0], l[0]);
        lemma_idents_order(l.drop_first(), m.drop_first(), n.drop_first());
    } else if l.len() > 0 && m.len() > 0 {
        lemma_ident_order(l[0], m[0], l[0]);
        lemma_idents_order(l.drop_first(), m.drop_first(), l.drop_first());
    } else if l.len() > 0 {
        lemma_ident_order(l[0], l[0], l[0]);
        lemma_idents_order(l.drop_first(), l.drop_first(), l.drop_first());
    }
}

/// Every version ranks level with itself.
pub proof fn law_compare_reflexive(a: Seq<char>)
    ensures
        version_order(a, a) == Order::Equal,
{
    lemma_numbers_order(core_numbers(a), core_numbers(a), core_numbers(a));
    let p = split(prerelease_text(a), '.');
    lemma_idents_order(p, p, p);
}

/// Comparing the other way round gives the opposite answer.
pub proof fn law_compare_antisymmetric(a: Seq<char>, b: Seq<char>)
    ensures
        version_order(b, a) == reversed(version_order(a, b)),
{
    lemma_numbers_order(core_numbers(a), core_numbers(b), core_numbers(a));
    let pa = split(prerelease_text(a), '.');
    let pb = split(prerelease_text(b), '.');
    lemma_idents_order(pa, pb, pa);
}

/// The order is transitive: it ranks any three versions consistently.
pub proof fn law_compare_transitive(a: Seq<char>, b: Seq<char>, c: Seq<char>)
    ensures
        chains(version_order(a, b), version_order(b, c), version_order(a, c)),
        not_above(version_order(a, b)) && not_above(version_order(b, c)) ==> not_above(
            version_order(a, c),
        ),
{
    lemma_numbers_order(core_numbers(a), core_numbers(b), core_numbers(c));
    lemma_numbers_order(core_numbers(b), core_numbers(c), core_numbers(a));
    lemma_numbers_order(core_numbers(c), core_numbers(a), core_numbers(b));
    let pa = split(prerelease_text(a), '.');
    let pb = split(prerelease_text(b), '.');
    let pc = split(prerelease_text(c), '.');
    lemma_idents_order(pa, pb, pc);
}

/// A release outranks every prerelease of the same numeric core.
pub proof fn law_release_outranks_prerelease(a: Seq<char>, b: Seq<char>)
    requires
        core_numbers(a) == core_numbers(b),
        prerelease_text(a).len() == 0,
        prerelease_text(b).len() > 0,
    ensures
        version_order(a, b) == Order::Greater,
{
    lemma_numbers_order(core_numbers(a), core_numbers(a), core_numbers(a));
}

proof fn lemma_idents_prefix_first(l: Seq<Seq<char>>, m: Seq<Seq<char>>)
    requires
        m.len() > 0,
    ensures
        idents_order(l, l + m) == Order::Less,
    decreases l.len(),
{
    if l.len() > 0 {
        lemma_ident_order(l[0], l[0], l[0]);
        assert((l + m)[0] == l[0]);
        assert((l + m).drop_first() =~= l.drop_first() + m);
        lemma_idents_prefix_first(l.drop_first(), m);
    }
}

/// Fewer identifiers mean lower precedence: a prerelease ranks below the
/// same prerelease with more identifiers after it.
pub proof fn law_longer_prerelease_outranks_prefix(p: Seq<char>, q: Seq<char>)
    ensures
        prerelease_order(p, p + seq!['.'] + q) == Order::Less,
{
    lemma_split_join(p, q, '.');
    lemma_split_nonempty(q, '.');
    lemma_idents_prefix_first(split(p, '.'), split(q, '.'));
}

/// The numeric core decides whenever it differs, whatever the prereleases.
pub proof fn law_core_decides(a: Seq<char>, b: Seq<char>)
    requires
        numbers_order(core_numbers(a), core_numbers(b)) != Order::Equal,
    ensures
        version_order(a, b) == numbers_order(core_numbers(a), core_numbers(b)),
{
}

/// The numeric core decides field by field: the major version first, then
/// the minor, then the patch, each compared as a number.
pub proof fn law_core_fields_in_turn(a: Seq<char>, b: Seq<char>)
    ensures
        core_field(a, 0) > core_field(b, 0) ==> version_order(a, b) == Order::Greater,
        core_field(a, 0) < core_field(b, 0) ==> version_order(a, b) == Order::Less,
        core_field(a, 0) == core_field(b, 0) && core_field(a, 1) > core_field(b, 1)
            ==> version_order(a, b) == Order::Greater,
        core_field(a, 0) == core_field(b, 0) && core_field(a, 1) < core_field(b, 1)
            ==> version_order(a, b) == Order::Less,
        core_field(a, 0) == core_field(b, 0) && core_field(a, 1) == core_field(b, 1)
            && core_field(a, 2) > core_field(b, 2) ==> version_order(a, b) == Order::Greater,
        core_field(a, 0) == core_field(b, 0) && core_field(a, 1) == core_field(b, 1)
            && core_field(a, 2) < core_field(b, 2) ==> version_order(a, b) == Order::Less,
{
    let ca = core_numbers(a);
    let cb = core_numbers(b);
    assert(ca[0] == core_field(a, 0) && ca[1] == core_field(a, 1) && ca[2] == core_field(a, 2));
    assert(cb[0] == core_field(b, 0) && cb[1] == core_field(b, 1) && cb[2] == core_field(b, 2));
    assert(ca.drop_first()[0] == ca[1] && ca.drop_first().drop_first()[0] == ca[2]);
    assert(cb.drop_first()[0] == cb[1] && cb.drop_first().drop_first()[0] == cb[2]);
    assert(ca.drop_first().len() == 2 && ca.drop_first().drop_first().len() == 1);
    assert(cb.drop_first().len() == 2 && cb.drop_first().drop_first().len() == 1);
    reveal_with_fuel(numbers_order, 4);
}

/// The text `X.Y.Z` of a release.
pub open spec fn release_text(x: nat, y: nat, z: nat) -> Seq<char> {
    decimal(x) + seq!['.'] + (decimal(y) + seq!['.'] + decimal(z))
}

/// `X.Y.Z` splits at its dots into the three numbers' decimal forms, and
/// reads back as a release with those numbers.
pub proof fn lemma_release_fields(x: nat, y: nat, z: nat)
    requires
        x <= u64::MAX,
        y <= u64::MAX,
        z <= u64::MAX,
    ensures
        split(release_text(x, y, z), '.') == seq![decimal(x), decimal(y), decimal(z)],
        release_text(x, y, z)[0] == decimal(x)[0],
        core_field(release_text(x, y, z), 0) == x,
        core_field(release_text(x, y, z), 1) == y,
        core_field(release_text(x, y, z), 2) == z,
        prerelease_text(release_text(x, y, z)).len() == 0,
{
    let dx = decimal(x);
    let dy = decimal(y);
    let dz = decimal(z);
    let t = release_text(x, y, z);
    lemma_decimal(x);
    lemma_decimal(y);
    lemma_decimal(z);
    let tail = dy + seq!['.'] + dz;
    assert forall|i: int| 0 <= i < t.len() implies t[i] != '-' by {
        if i < dx.len() {
            assert(t[i] == dx[i]);
        } else if i == dx.len() {
        } else if i < dx.len() + 1 + dy.len() {
            assert(t[i] == dy[i - dx.len() - 1]);
        } else if i == dx.len() + 1 + dy.len() {
        } else {
            assert(t[i] == dz[i - dx.len() - 2 - dy.len()]);
        }
    }
    lemma_index_from(t, '-', 0);
    assert(index_from(t, '-', 0) is None);
    assert(core_text(t) == t);
    assert forall|i: int| 0 <= i < dx.len() implies dx[i] != '.' by {}
    assert forall|i: int| 0 <= i < dy.len() implies dy[i] != '.' by {}
    assert forall|i: int| 0 <= i < dz.len() implies dz[i] != '.' by {}
    lemma_split_free(dx, '.');
    lemma_split_free(dy, '.');
    lemma_split_free(dz, '.');
    lemma_split_join(dx, tail, '.');
    lemma_split_join(dy, dz, '.');
    let fields = split(t, '.');
    assert(fields =~= seq![dx, dy, dz]);
    lemma_parse_decimal(x, u64::MAX as int);
    lemma_parse_decimal(y, u64::MAX as int);
    lemma_parse_decimal(z, u64::MAX as int);
}

/// Releases `X.Y.Z` order as their number triples do, lexicographically:
/// a higher major version ranks above any lower one, whatever the minor
/// and patch; on an equal major the minor decides; then the patch.
pub proof fn law_release_order(x1: nat, y1: nat, z1: nat, x2: nat, y2: nat, z2: nat)
    requires
        x1 <= u64::MAX,
        y1 <= u64::MAX,
        z1 <= u64::MAX,
        x2 <= u64::MAX,
        y2 <= u64::MAX,
        z2 <= u64::MAX,
    ensures
        ({
            let o = version_order(release_text(x1, y1, z1), release_text(x2, y2, z2));
            &&& o == Order::Greater <==> (x1 > x2 || (x1 == x2 && y1 > y2) || (x1 == x2 && y1
                == y2 && z1 > z2))
            &&& o == Order::Less <==> (x1 < x2 || (x1 == x2 && y1 < y2) || (x1 == x2 && y1 == y2
                && z1 < z2))
            &&& o == Order::Equal <==> (x1 == x2 && y1 == y2 && z1 == z2)
        }),
{
    let a = release_text(x1, y1, z1);
    let b = release_text(x2, y2, z2);
    lemma_release_fields(x1, y1, z1);
    lemma_release_fields(x2, y2, z2);
    law_core_fields_in_turn(a, b);
    if x1 == x2 && y1 == y2 && z1 == z2 {
        lemma_numbers_order(core_numbers(a), core_numbers(a), core_numbers(a));
        assert(core_numbers(a) =~= core_numbers(b));
        let p = split(prerelease_text(a), '.');
        assert(prerelease_text(a) =~= prerelease_text(b));
        lemma_idents_order(p, p, p);
    }
}

/// The standard-library value for an outcome.
pub open spec fn to_ordering(o: Order) -> Ordering {
    match o {
        Order::Less => Ordering::Less,
        Order::Equal => Ordering::Equal,
        Order::Greater => Ordering::Greater,
    }
}

fn ordering_of(o: Order) -> (r: Ordering)
    ensures
        r == to_ordering(o),
{
    match o {
        Order::Less => Ordering::Less,
        Order::Equal => Ordering::Equal,
        Order::Greater => Ordering::Greater,
    }
}

/// Compare dot-separated prerelease identifiers, as semver orders them.
pub fn compare_prerelease(a: &str, b: &str) -> (r: Ordering)
    ensures
        r == to_ordering(prerelease_order(a@, b@)),
{
    ordering_of(prerelease_order_exec(a, b))
}

/// Order two versions: numeric core first, then a release above its
/// prereleases, then prerelease identifiers in turn.
pub fn compare(a: &str, b: &str) -> (r: Ordering)
    ensures
        r == to_ordering(version_order(a@, b@)),
{
    ordering_of(version_order_exec(a, b))
}

} // verus!
