//! Format versions: four numbers compared in order, first to last.

use vstd::prelude::*;
use crate::model::ParseError;
use crate::text::{
    all_digits, chars_of, digits_value, field, find_char, first_index, is_digit,
    lemma_digits_value_nonneg, lemma_unsigned_nonneg, unsigned_in, unsigned_value,
};

verus! {

/// A format version, `major.minor.patch.build`.
#[derive(Debug, Clone, Copy, PartialEq, Eq, Structural)]
pub struct Version(pub u32, pub u32, pub u32, pub u32);

/// The value a missing version component takes.
pub open spec fn default_component(k: int) -> int {
    if k == 0 {
        1
    } else {
        0
    }
}

/// Whether the `k`-th dot-separated piece of `s` is absent or an unsigned
/// 32-bit integer.
pub open spec fn component_ok(s: Seq<char>, k: nat) -> bool {
    field(s, '.', k) matches Some(f) ==> (unsigned_value(f) matches Some(v) && v <= u32::MAX)
}

/// The `k`-th component of the version written as `s`.
pub open spec fn component(s: Seq<char>, k: nat) -> int {
    match field(s, '.', k) {
        Some(f) => unsigned_value(f).unwrap(),
        None => default_component(k as int),
    }
}

/// The version written as `s`: up to four dot-separated unsigned integers,
/// the missing ones taking their defaults and any beyond the fourth ignored.
pub open spec fn version_of(s: Seq<char>) -> Option<Version> {
    if component_ok(s, 0) && component_ok(s, 1) && component_ok(s, 2) && component_ok(s, 3) {
        Some(
            Version(
                component(s, 0) as u32,
                component(s, 1) as u32,
                component(s, 2) as u32,
                component(s, 3) as u32,
            ),
        )
    } else {
        None
    }
}

/// `a` is `b` or later: the components compared in order.
pub open spec fn version_ge(a: Version, b: Version) -> bool {
    if a.0 != b.0 {
        a.0 > b.0
    } else if a.1 != b.1 {
        a.1 > b.1
    } else if a.2 != b.2 {
        a.2 > b.2
    } else {
        a.3 >= b.3
    }
}

impl Version {
    /// The version a document without a version attribute has.
    pub fn initial() -> (r: Version)
        ensures
            r == Version(1, 0, 0, 0),
    {
        Version(1, 0, 0, 0)
    }

    /// Whether this version is `other` or later.
    pub fn at_least(&self, other: &Version) -> (r: bool)
        ensures
            r == version_ge(*self, *other),
    {
        if self.0 != other.0 {
            self.0 > other.0
        } else if self.1 != other.1 {
            self.1 > other.1
        } else if self.2 != other.2 {
            self.2 > other.2
        } else {
            self.3 >= other.3
        }
    }
}

/// Versions are ordered as tuples: the order is total, antisymmetric and
/// transitive.
pub proof fn law_version_order(a: Version, b: Version, c: Version)
    ensures
        version_ge(a, b) || version_ge(b, a),
        version_ge(a, b) && version_ge(b, a) ==> a == b,
        version_ge(a, b) && version_ge(b, c) ==> version_ge(a, c),
        version_ge(a, a),
{
}

/// Reads a version attribute.
pub fn parse_version(text: &str) -> (r: Result<Version, ParseError>)
    ensures
        match version_of(text@) {
            Some(v) => r == Ok::<Version, ParseError>(v),
            None => r == Err::<Version, ParseError>(ParseError::IntegerFormat),
        },
{
    let cs = chars_of(text);
    let hi = cs.len();
    let ghost t = text@;
    assert(cs@.subrange(0, hi as int) =~= t);
    let mut comps: Vec<u32> = vec![1, 0, 0, 0];
    let mut pos: usize = 0;
    let mut k: usize = 0;
    let mut more = true;
    while k < 4
        invariant
            k <= 4,
            pos <= hi == cs@.len(),
            t == cs@,
            t == text@,
            comps@.len() == 4,
            forall|j: nat| j < k ==> #[trigger] component_ok(t, j),
            forall|j: nat| j < k ==> comps@[j as int] == #[trigger] component(t, j),
            forall|j: int| k <= j < 4 ==> comps@[j] == default_component(j),
            more ==> forall|j: nat|
                #![trigger field(cs@.subrange(pos as int, hi as int), '.', j)]
                field(t, '.', (k + j) as nat) == field(
                    cs@.subrange(pos as int, hi as int),
                    '.',
                    j,
                ),
            !more ==> forall|j: nat| j >= k ==> #[trigger] field(t, '.', j) is None,
        decreases 4 - k,
    {
        if more {
            let ghost sub = cs@.subrange(pos as int, hi as int);
            let e = find_char(&cs, pos, hi, '.');
            assert(sub.take(e - pos) =~= cs@.subrange(pos as int, e as int));
            assert(field(t, '.', k as nat) == field(sub, '.', 0));
            assert(field(t, '.', k as nat) == Some(cs@.subrange(pos as int, e as int)));
            proof {
                lemma_unsigned_nonneg(cs@.subrange(pos as int, e as int));
            }
            match unsigned_in(&cs, pos, e) {
                Ok(v) => {
                    assert(component(t, k as nat) == v);
                    assert(component_ok(t, k as nat));
                    comps.set(k, v);
                },
                Err(_) => {
                    assert(!component_ok(t, k as nat));
                    assert(version_of(t) is None);
                    return Err(ParseError::IntegerFormat);
                },
            }
            if e == hi {
                assert forall|j: nat| j >= k + 1 implies #[trigger] field(t, '.', j) is None by {
                    assert(field(t, '.', j) == field(sub, '.', (j - k) as nat));
                }
                more = false;
            } else {
                let ghost rest = cs@.subrange(e + 1, hi as int);
                assert(sub.skip(e - pos + 1) =~= rest);
                assert forall|j: nat| #[trigger]
                    field(rest, '.', j) == field(t, '.', (k + 1 + j) as nat) by {
                    assert(field(t, '.', (k + 1 + j) as nat) == field(sub, '.', j + 1));
                }
                pos = e + 1;
            }
        } else {
            assert(field(t, '.', k as nat) is None);
            assert(component(t, k as nat) == default_component(k as int));
            assert(component_ok(t, k as nat));
        }
        k = k + 1;
    }
    Ok(Version(comps[0], comps[1], comps[2], comps[3]))
}

/// A piece without `c`, then `c`, then the rest: the first `c` is right
/// after the piece.
pub proof fn lemma_first_index_after(a: Seq<char>, b: Seq<char>, c: char)
    requires
        forall|i: int| 0 <= i < a.len() ==> a[i] != c,
    ensures
        first_index(a + seq![c] + b, c) == a.len(),
    decreases a.len(),
{
    let s = a + seq![c] + b;
    if a.len() > 0 {
        assert(s.skip(1) =~= a.skip(1) + seq![c] + b);
        lemma_first_index_after(a.skip(1), b, c);
    } else {
        assert(s[0] == c);
    }
}

/// A piece without `c`: no `c` in it at all.
pub proof fn lemma_first_index_none(a: Seq<char>, c: char)
    requires
        forall|i: int| 0 <= i < a.len() ==> a[i] != c,
    ensures
        first_index(a, c) == a.len(),
    decreases a.len(),
{
    if a.len() > 0 {
        lemma_first_index_none(a.skip(1), c);
    }
}

/// A non-empty run of digits worth at most `u32::MAX`.
pub open spec fn plain_number(d: Seq<char>) -> bool {
    d.len() > 0 && all_digits(d) && digits_value(d) <= u32::MAX
}

/// Four numbers written `a.b.c.d` read as that version, so versions written
/// out compare as their four numbers do, first to last.
pub proof fn law_written_version(a: Seq<char>, b: Seq<char>, c: Seq<char>, d: Seq<char>)
    requires
        plain_number(a),
        plain_number(b),
        plain_number(c),
        plain_number(d),
    ensures
        version_of(a + seq!['.'] + b + seq!['.'] + c + seq!['.'] + d) == Some(
            Version(
                digits_value(a) as u32,
                digits_value(b) as u32,
                digits_value(c) as u32,
                digits_value(d) as u32,
            ),
        ),
{
    let s3 = d;
    let s2 = c + seq!['.'] + s3;
    let s1 = b + seq!['.'] + s2;
    let s0 = a + seq!['.'] + s1;
    assert(s0 =~= a + seq!['.'] + b + seq!['.'] + c + seq!['.'] + d);
    assert forall|x: Seq<char>| plain_number(x) implies forall|i: int|
        0 <= i < x.len() ==> x[i] != '.' by {
        assert forall|i: int| 0 <= i < x.len() implies x[i] != '.' by {
            assert(is_digit(x[i]));
        }
    }
    lemma_first_index_after(a, s1, '.');
    lemma_first_index_after(b, s2, '.');
    lemma_first_index_after(c, s3, '.');
    lemma_first_index_none(d, '.');
    assert(s0.take(a.len() as int) =~= a);
    assert(s0.skip(a.len() as int + 1) =~= s1);
    assert(s1.take(b.len() as int) =~= b);
    assert(s1.skip(b.len() as int + 1) =~= s2);
    assert(s2.take(c.len() as int) =~= c);
    assert(s2.skip(c.len() as int + 1) =~= s3);
    assert(s3.take(d.len() as int) =~= d);
    assert(field(s0, '.', 0) == Some(a));
    assert(field(s1, '.', 0) == Some(b));
    assert(field(s2, '.', 0) == Some(c));
    assert(field(s3, '.', 0) == Some(d));
    assert(field(s0, '.', 1) == field(s1, '.', 0));
    assert(field(s1, '.', 1) == field(s2, '.', 0));
    assert(field(s2, '.', 1) == field(s3, '.', 0));
    assert(field(s0, '.', 2) == field(s1, '.', 1));
    assert(field(s1, '.', 2) == field(s2, '.', 1));
    assert(field(s0, '.', 3) == field(s1, '.', 2));
    assert(a[0] != '+' && b[0] != '+' && c[0] != '+' && d[0] != '+') by {
        assert(is_digit(a[0]) && is_digit(b[0]) && is_digit(c[0]) && is_digit(d[0]));
    }
    lemma_digits_value_nonneg(a);
    lemma_digits_value_nonneg(b);
    lemma_digits_value_nonneg(c);
    lemma_digits_value_nonneg(d);
}

} // verus!
