//! Plain-text values of the save format: integers, booleans, versions and
//! time spans, each defined over the characters of the text.

use vstd::prelude::*;
use crate::model::{ParseError, TimeSpan};
use vstd::string::StrSliceExecFns;

verus! {

pub open spec fn is_digit(c: char) -> bool {
    '0' <= c && c <= '9'
}

pub open spec fn digit_value(c: char) -> int {
    (c as int) - ('0' as int)
}

pub open spec fn all_digits(s: Seq<char>) -> bool {
    forall|i: int| 0 <= i < s.len() ==> is_digit(#[trigger] s[i])
}

/// The value of a run of decimal digits, most significant first.
pub open spec fn digits_value(s: Seq<char>) -> int
    decreases s.len(),
{
    if s.len() == 0 {
        0
    } else {
        digits_value(s.drop_last()) * 10 + digit_value(s.last())
    }
}

/// An unsigned integer: an optional `+`, then at least one digit.
pub open spec fn unsigned_value(s: Seq<char>) -> Option<int> {
    let d = if s.len() > 0 && s[0] == '+' { s.skip(1) } else { s };
    if d.len() > 0 && all_digits(d) {
        Some(digits_value(d))
    } else {
        None
    }
}

/// A signed integer: an optional `+` or `-`, then at least one digit.
pub open spec fn signed_value(s: Seq<char>) -> Option<int> {
    if s.len() > 0 && s[0] == '-' {
        let d = s.skip(1);
        if d.len() > 0 && all_digits(d) {
            Some(-digits_value(d))
        } else {
            None
        }
    } else {
        unsigned_value(s)
    }
}

pub proof fn lemma_digits_value_nonneg(s: Seq<char>)
    requires
        all_digits(s),
    ensures
        digits_value(s) >= 0,
    decreases s.len(),
{
    if s.len() > 0 {
        lemma_digits_value_nonneg(s.drop_last());
    }
}

pub proof fn lemma_unsigned_nonneg(s: Seq<char>)
    ensures
        unsigned_value(s) matches Some(v) ==> v >= 0,
{
    let d = if s.len() > 0 && s[0] == '+' { s.skip(1) } else { s };
    if all_digits(d) {
        lemma_digits_value_nonneg(d);
    }
}

/// A prefix of a digit run never has a larger value than the whole run.
pub proof fn lemma_digits_prefix_le(s: Seq<char>, i: int)
    requires
        all_digits(s),
        0 <= i <= s.len(),
    ensures
        digits_value(s.take(i)) <= digits_value(s),
    decreases s.len(),
{
    if i < s.len() {
        let p = s.drop_last();
        assert(p.take(i) =~= s.take(i));
        lemma_digits_prefix_le(p, i);
        lemma_digits_value_nonneg(p);
    } else {
        assert(s.take(i) =~= s);
    }
}

/// Relies on str::chars: the characters of the text, in order.
#[verifier::external_body]
pub(crate) fn chars_of(s: &str) -> (r: Vec<char>)
    ensures
        r@ == s@,
{
    s.chars().collect()
}

/// Reads the digits `s[lo..hi]` as a number no larger than `max`.
fn digits_in(s: &Vec<char>, lo: usize, hi: usize, max: u64) -> (r: Option<u64>)
    requires
        lo <= hi <= s@.len(),
        max <= u64::MAX / 16,
    ensures
        match r {
            Some(v) => all_digits(s@.subrange(lo as int, hi as int)) && v == digits_value(
                s@.subrange(lo as int, hi as int),
            ) && v <= max,
            None => !all_digits(s@.subrange(lo as int, hi as int)) || digits_value(
                s@.subrange(lo as int, hi as int),
            ) > max,
        },
{
    let mut v: u64 = 0;
    let mut i: usize = lo;
    while i < hi
        invariant
            lo <= i <= hi <= s@.len(),
            max <= u64::MAX / 16,
            all_digits(s@.subrange(lo as int, i as int)),
            v == digits_value(s@.subrange(lo as int, i as int)),
            v <= max,
        decreases hi - i,
    {
        let c = s[i];
        let sub = Ghost(s@.subrange(lo as int, i as int + 1));
        assert(sub@.drop_last() =~= s@.subrange(lo as int, i as int));
        if !('0' <= c && c <= '9') {
            assert(!is_digit(s@.subrange(lo as int, hi as int)[i - lo]));
            return None;
        }
        let d = (c as u32 - '0' as u32) as u64;
        let nv = v * 10 + d;
        if nv > max {
            proof {
                let whole = s@.subrange(lo as int, hi as int);
                if all_digits(whole) {
                    assert(whole.take(i - lo + 1) =~= sub@);
                    lemma_digits_prefix_le(whole, i - lo + 1);
                }
            }
            return None;
        }
        v = nv;
        i = i + 1;
        assert(all_digits(s@.subrange(lo as int, i as int)));
    }
    Some(v)
}

/// Reads `s[lo..hi]` as an unsigned 32-bit integer.
pub(crate) fn unsigned_in(s: &Vec<char>, lo: usize, hi: usize) -> (r: Result<u32, ParseError>)
    requires
        lo <= hi <= s@.len(),
    ensures
        match unsigned_value(s@.subrange(lo as int, hi as int)) {
            Some(v) => if v <= u32::MAX {
                r == Ok::<u32, ParseError>(v as u32)
            } else {
                r == Err::<u32, ParseError>(ParseError::IntegerFormat)
            },
            None => r == Err::<u32, ParseError>(ParseError::IntegerFormat),
        },
{
    let ghost t = s@.subrange(lo as int, hi as int);
    assert(lo < hi ==> t[0] == s@[lo as int]);
    let mut start = lo;
    if lo < hi && s[lo] == '+' {
        start = lo + 1;
    }
    assert(s@.subrange(start as int, hi as int) =~= (if t.len() > 0 && t[0] == '+' {
        t.skip(1)
    } else {
        t
    }));
    if start == hi {
        return Err(ParseError::IntegerFormat);
    }
    match digits_in(s, start, hi, u32::MAX as u64) {
        Some(v) => Ok(v as u32),
        None => Err(ParseError::IntegerFormat),
    }
}

/// Reads `s[lo..hi]` as a signed 32-bit integer.
pub(crate) fn signed_in(s: &Vec<char>, lo: usize, hi: usize) -> (r: Result<i32, ParseError>)
    requires
        lo <= hi <= s@.len(),
    ensures
        match signed_value(s@.subrange(lo as int, hi as int)) {
            Some(v) => if i32::MIN <= v <= i32::MAX {
                r == Ok::<i32, ParseError>(v as i32)
            } else {
                r == Err::<i32, ParseError>(ParseError::IntegerFormat)
            },
            None => r == Err::<i32, ParseError>(ParseError::IntegerFormat),
        },
{
    let ghost t = s@.subrange(lo as int, hi as int);
    assert(lo < hi ==> t[0] == s@[lo as int]);
    if lo < hi && s[lo] == '-' {
        assert(s@.subrange(lo + 1, hi as int) =~= t.skip(1));
        if lo + 1 == hi {
            return Err(ParseError::IntegerFormat);
        }
        match digits_in(s, lo + 1, hi, 0x8000_0000u64) {
            Some(v) => {
                assert(signed_value(t) == Some(-(v as int)));
                Ok((0 - v as i64) as i32)
            },
            None => {
                proof { if all_digits(t.skip(1)) && t.skip(1).len() > 0 {
                    assert(digits_value(t.skip(1)) > 0x8000_0000);
                    assert(signed_value(t) == Some(-digits_value(t.skip(1))));
                } else {
                    assert(signed_value(t) is None);
                } }
                Err(ParseError::IntegerFormat)
            },
        }
    } else {
        assert(signed_value(t) == unsigned_value(t));
        proof {
            lemma_unsigned_nonneg(t);
        }
        match unsigned_in(s, lo, hi) {
            Ok(v) => if v <= 0x7fff_ffffu32 {
                Ok(v as i32)
            } else {
                Err(ParseError::IntegerFormat)
            },
            Err(e) => Err(e),
        }
    }
}

/// Index of the first `c` in `s`, or `s.len()` when there is none.
pub open spec fn first_index(s: Seq<char>, c: char) -> int
    decreases s.len(),
{
    if s.len() == 0 {
        0
    } else if s[0] == c {
        0
    } else {
        1 + first_index(s.skip(1), c)
    }
}

pub proof fn lemma_first_index_bounds(s: Seq<char>, c: char)
    ensures
        0 <= first_index(s, c) <= s.len(),
        first_index(s, c) < s.len() ==> s[first_index(s, c)] == c,
        forall|j: int| 0 <= j < first_index(s, c) ==> s[j] != c,
    decreases s.len(),
{
    if s.len() > 0 && s[0] != c {
        lemma_first_index_bounds(s.skip(1), c);
        assert forall|j: int| 0 <= j < first_index(s, c) implies s[j] != c by {
            if j > 0 {
                assert(s[j] == s.skip(1)[j - 1]);
            }
        }
    }
}

/// The `k`-th piece of `s` cut at every `c`, if there are that many.
pub open spec fn field(s: Seq<char>, c: char, k: nat) -> Option<Seq<char>>
    decreases k,
{
    let e = first_index(s, c);
    if k == 0 {
        Some(s.take(e))
    } else if e < s.len() {
        field(s.skip(e + 1), c, (k - 1) as nat)
    } else {
        None
    }
}

/// Finds the first `c` in `s[lo..hi]`, or `hi`.
pub(crate) fn find_char(s: &Vec<char>, lo: usize, hi: usize, c: char) -> (r: usize)
    requires
        lo <= hi <= s@.len(),
    ensures
        r == lo + first_index(s@.subrange(lo as int, hi as int), c),
        lo <= r <= hi,
{
    let mut i: usize = lo;
    proof {
        lemma_first_index_bounds(s@.subrange(lo as int, hi as int), c);
    }
    while i < hi && s[i] != c
        invariant
            lo <= i <= hi <= s@.len(),
            first_index(s@.subrange(lo as int, hi as int), c) == (i - lo) + first_index(
                s@.subrange(i as int, hi as int),
                c,
            ),
        decreases hi - i,
    {
        assert(s@.subrange(i as int, hi as int).skip(1) =~= s@.subrange(i + 1, hi as int));
        i = i + 1;
    }
    i
}

/// Digits of a fraction as nanoseconds: the first nine count, the rest are
/// cut off.
pub open spec fn fraction_nanos(f: Seq<char>) -> int {
    if f.len() >= 9 {
        digits_value(f.take(9))
    } else {
        digits_value(f) * pow10((9 - f.len()) as nat)
    }
}

pub open spec fn pow10(n: nat) -> int
    decreases n,
{
    if n == 0 {
        1
    } else {
        10 * pow10((n - 1) as nat)
    }
}

/// A decimal number of seconds, `12` or `12.5` or `.5`, in nanoseconds.
pub open spec fn numeral_nanos(p: Seq<char>) -> Option<int> {
    let d = first_index(p, '.');
    let ip = p.take(d);
    if d == p.len() {
        if ip.len() > 0 && all_digits(ip) {
            Some(digits_value(ip) * 1_000_000_000)
        } else {
            None
        }
    } else {
        let fp = p.skip(d + 1);
        if all_digits(ip) && all_digits(fp) && ip.len() + fp.len() > 0 {
            Some(digits_value(ip) * 1_000_000_000 + fraction_nanos(fp))
        } else {
            None
        }
    }
}

/// Colon-separated numerals, each counting sixty of the next: `2:30:00`.
/// `acc` is what the pieces already read are worth.
pub open spec fn clock_nanos(s: Seq<char>, acc: int) -> Option<int>
    decreases s.len(),
{
    let e = first_index(s, ':');
    match numeral_nanos(s.take(e)) {
        None => None,
        Some(p) => if e >= s.len() || e < 0 {
            Some(acc * 60 + p)
        } else {
            clock_nanos(s.skip(e + 1), acc * 60 + p)
        },
    }
}

/// A time span written as seconds or as a clock reading, with an optional
/// leading `-`.
pub open spec fn plain_span(s: Seq<char>) -> Option<int> {
    if s.len() > 0 && s[0] == '-' {
        match clock_nanos(s.skip(1), 0) {
            Some(v) => Some(-v),
            None => None,
        }
    } else {
        clock_nanos(s, 0)
    }
}

pub open spec fn nanos_per_day() -> int {
    86_400_000_000_000
}

/// A time span in nanoseconds. Where a `.` comes before the first `:`, what
/// precedes the `.` counts whole days and the rest is a clock reading added to
/// them; otherwise the whole text is a plain span. A span, and each of its
/// two parts, holds at most `SPAN_LIMIT` nanoseconds either way, and the day
/// count fits in an `i32`.
pub open spec fn span_value(s: Seq<char>) -> Option<int> {
    let d = first_index(s, '.');
    let c = first_index(s, ':');
    if d < s.len() && c < s.len() && d < c {
        match (signed_value(s.take(d)), plain_span(s.skip(d + 1))) {
            (Some(days), Some(t)) => if i32::MIN <= days <= i32::MAX && span_fits(t) && span_fits(
                days * nanos_per_day() + t,
            ) {
                Some(days * nanos_per_day() + t)
            } else {
                None
            },
            _ => None,
        }
    } else {
        match plain_span(s) {
            Some(v) => if span_fits(v) {
                Some(v)
            } else {
                None
            },
            None => None,
        }
    }
}

/// Whether a span of `v` nanoseconds can be held.
pub open spec fn span_fits(v: int) -> bool {
    -SPAN_LIMIT <= v <= SPAN_LIMIT
}

/// Booleans are written `True` and `False`, nothing else.
pub open spec fn bool_value(s: Seq<char>) -> Option<bool> {
    if s == "True"@ {
        Some(true)
    } else if s == "False"@ {
        Some(false)
    } else {
        None
    }
}

/// The largest span magnitude, in nanoseconds, that a time span holds.
pub const SPAN_LIMIT: i128 = 9223372036854775807;

pub proof fn lemma_pow10_pos(n: nat)
    ensures
        pow10(n) >= 1,
    decreases n,
{
    if n > 0 {
        lemma_pow10_pos((n - 1) as nat);
    }
}

pub proof fn lemma_numeral_nonneg(p: Seq<char>)
    ensures
        numeral_nanos(p) matches Some(v) ==> v >= 0,
{
    let d = first_index(p, '.');
    let ip = p.take(d);
    let fp = p.skip(d + 1);
    if all_digits(ip) {
        lemma_digits_value_nonneg(ip);
    }
    if all_digits(fp) {
        lemma_digits_value_nonneg(fp);
        lemma_pow10_pos((9 - fp.len()) as nat);
        if fp.len() >= 9 {
            assert(all_digits(fp.take(9)));
            lemma_digits_value_nonneg(fp.take(9));
        }
        assert(fraction_nanos(fp) >= 0) by (nonlinear_arith)
            requires
                fp.len() >= 9 ==> digits_value(fp.take(9)) >= 0,
                digits_value(fp) >= 0,
                pow10((9 - fp.len()) as nat) >= 1,
                fraction_nanos(fp) == (if fp.len() >= 9 {
                    digits_value(fp.take(9))
                } else {
                    digits_value(fp) * pow10((9 - fp.len()) as nat)
                }),
        ;
    }
}

/// A clock reading is worth at least sixty times what came before it plus
/// its first piece.
pub proof fn lemma_clock_grows(s: Seq<char>, acc: int)
    requires
        acc >= 0,
    ensures
        clock_nanos(s, acc) matches Some(v) ==> (numeral_nanos(s.take(first_index(s, ':')))
            matches Some(p) && v >= acc * 60 + p),
    decreases s.len(),
{
    let e = first_index(s, ':');
    lemma_first_index_bounds(s, ':');
    lemma_numeral_nonneg(s.take(e));
    if let Some(p) = numeral_nanos(s.take(e)) {
        if e < s.len() {
            let rest = s.skip(e + 1);
            lemma_clock_grows(rest, acc * 60 + p);
            lemma_numeral_nonneg(rest.take(first_index(rest, ':')));
        }
    }
}

/// Whether every one of `s[lo..hi]` is a digit.
fn digits_only(s: &Vec<char>, lo: usize, hi: usize) -> (r: bool)
    requires
        lo <= hi <= s@.len(),
    ensures
        r == all_digits(s@.subrange(lo as int, hi as int)),
{
    let mut i: usize = lo;
    while i < hi
        invariant
            lo <= i <= hi <= s@.len(),
            all_digits(s@.subrange(lo as int, i as int)),
        decreases hi - i,
    {
        if !('0' <= s[i] && s[i] <= '9') {
            assert(!is_digit(s@.subrange(lo as int, hi as int)[i - lo]));
            return false;
        }
        i = i + 1;
        assert(all_digits(s@.subrange(lo as int, i as int)));
    }
    assert(s@.subrange(lo as int, i as int) =~= s@.subrange(lo as int, hi as int));
    true
}

/// Reads the numeral `s[lo..hi]` in nanoseconds, failing also where it is
/// larger than the span limit.
fn numeral_in(s: &Vec<char>, lo: usize, hi: usize) -> (r: Option<i128>)
    requires
        lo <= hi <= s@.len(),
    ensures
        match r {
            Some(v) => numeral_nanos(s@.subrange(lo as int, hi as int)) == Some(v as int) && 0
                <= v <= SPAN_LIMIT,
            None => match numeral_nanos(s@.subrange(lo as int, hi as int)) {
                Some(v) => v > SPAN_LIMIT,
                None => true,
            },
        },
{
    let ghost p = s@.subrange(lo as int, hi as int);
    let d = find_char(s, lo, hi, '.');
    assert(p.take(d - lo) =~= s@.subrange(lo as int, d as int));
    proof {
        lemma_numeral_nonneg(p);
    }
    if !digits_only(s, lo, d) {
        return None;
    }
    let iv = match digits_in(s, lo, d, 9223372036u64) {
        Some(v) => v,
        None => {
            proof {
                let ip = s@.subrange(lo as int, d as int);
                lemma_pow10_pos((9 - p.skip(d - lo + 1).len()) as nat);
                let fp = p.skip(d - lo + 1);
                if all_digits(fp) {
                    lemma_digits_value_nonneg(fp);
                    if fp.len() >= 9 {
                        assert(all_digits(fp.take(9)));
                        lemma_digits_value_nonneg(fp.take(9));
                    }
                    assert(fraction_nanos(fp) >= 0) by (nonlinear_arith)
                        requires
                            fp.len() >= 9 ==> digits_value(fp.take(9)) >= 0,
                            digits_value(fp) >= 0,
                            pow10((9 - fp.len()) as nat) >= 1,
                            fraction_nanos(fp) == (if fp.len() >= 9 {
                                digits_value(fp.take(9))
                            } else {
                                digits_value(fp) * pow10((9 - fp.len()) as nat)
                            }),
                    ;
                }
                let x = digits_value(ip);
                assert(x * 1_000_000_000 > SPAN_LIMIT) by (nonlinear_arith)
                    requires
                        x > 9223372036,
                ;
            }
            return None;
        },
    };
    if d == hi {
        if lo == d {
            return None;
        }
        assert(p.take(d - lo) =~= p);
        return Some(iv as i128 * 1_000_000_000);
    }
    let fs = d + 1;
    assert(p.skip(d - lo + 1) =~= s@.subrange(fs as int, hi as int));
    if !digits_only(s, fs, hi) {
        return None;
    }
    if lo == d && fs == hi {
        return None;
    }
    let ghost fp = s@.subrange(fs as int, hi as int);
    let fv: i128;
    if hi - fs >= 9 {
        assert(fp.take(9) =~= s@.subrange(fs as int, fs + 9));
        proof {
            lemma_digits_value_nonneg(fp.take(9));
            assert(fp.take(9).len() == 9);
            lemma_digits_below(fp.take(9));
            lemma_pow10_le(9);
        }
        let v = digits_in(s, fs, fs + 9, 999_999_999u64);
        fv = v.unwrap() as i128;
    } else {
        proof {
            lemma_digits_below(fp);
            lemma_pow10_le(fp.len());
        }
        let v = digits_in(s, fs, hi, 999_999_999u64);
        let mut m: i128 = 1;
        let mut k: usize = hi - fs;
        while k < 9
            invariant
                fs <= hi,
                hi - fs <= k <= 9,
                m == pow10((k - (hi - fs)) as nat),
                1 <= m <= 1_000_000_000,
            decreases 9 - k,
        {
            proof {
                assert(pow10((k + 1 - (hi - fs)) as nat) == 10 * pow10((k - (hi - fs)) as nat));
                lemma_pow10_le((k + 1 - (hi - fs)) as nat);
            }
            m = m * 10;
            k = k + 1;
        }
        let dv = v.unwrap() as i128;
        assert(dv * m <= 999_999_999 * 1_000_000_000) by (nonlinear_arith)
            requires
                0 <= dv <= 999_999_999,
                1 <= m <= 1_000_000_000,
        ;
        fv = dv * m;
    }
    let total = iv as i128 * 1_000_000_000 + fv;
    assert(fraction_nanos(fp) == fv);
    assert(numeral_nanos(p) == Some(total as int));
    if total > SPAN_LIMIT {
        return None;
    }
    Some(total)
}

/// Reads the clock reading `s[lo..hi]`, failing also where it is larger than
/// the span limit.
fn clock_in(s: &Vec<char>, lo: usize, hi: usize) -> (r: Option<i128>)
    requires
        lo <= hi <= s@.len(),
    ensures
        r matches Some(v) ==> clock_nanos(s@.subrange(lo as int, hi as int), 0) == Some(v as int)
            && 0 <= v <= SPAN_LIMIT,
        r is None ==> (clock_nanos(s@.subrange(lo as int, hi as int), 0) matches Some(v) ==> v
            > SPAN_LIMIT),
{
    let ghost t = s@.subrange(lo as int, hi as int);
    let mut acc: i128 = 0;
    let mut pos: usize = lo;
    loop
        invariant
            lo <= pos <= hi <= s@.len(),
            0 <= acc <= SPAN_LIMIT,
            t == s@.subrange(lo as int, hi as int),
            clock_nanos(t, 0) == clock_nanos(s@.subrange(pos as int, hi as int), acc as int),
        decreases hi - pos,
    {
        let ghost sub = s@.subrange(pos as int, hi as int);
        let e = find_char(s, pos, hi, ':');
        assert(sub.take(e - pos) =~= s@.subrange(pos as int, e as int));
        proof {
            lemma_clock_grows(sub, acc as int);
        }
        proof {
            lemma_numeral_nonneg(sub.take(e - pos));
        }
        match numeral_in(s, pos, e) {
            None => {
                assert(clock_nanos(sub, acc as int) matches Some(v) ==> v > SPAN_LIMIT);
                return None;
            },
            Some(p) => {
                let nacc = acc * 60 + p;
                if nacc > SPAN_LIMIT {
                    assert(clock_nanos(sub, acc as int) matches Some(v) ==> v > SPAN_LIMIT);
                    return None;
                }
                if e == hi {
                    return Some(nacc);
                }
                assert(sub.skip(e - pos + 1) =~= s@.subrange(e + 1, hi as int));
                acc = nacc;
                pos = e + 1;
            },
        }
    }
}

/// Reads `s[lo..hi]` as a plain span, failing also where its magnitude is
/// larger than the span limit.
fn plain_in(s: &Vec<char>, lo: usize, hi: usize) -> (r: Option<i128>)
    requires
        lo <= hi <= s@.len(),
    ensures
        match r {
            Some(v) => plain_span(s@.subrange(lo as int, hi as int)) == Some(v as int) && span_fits(
                v as int,
            ),
            None => match plain_span(s@.subrange(lo as int, hi as int)) {
                Some(v) => !span_fits(v),
                None => true,
            },
        },
{
    let ghost t = s@.subrange(lo as int, hi as int);
    if lo < hi && s[lo] == '-' {
        assert(t[0] == s@[lo as int]);
        assert(t.skip(1) =~= s@.subrange(lo + 1, hi as int));
        match clock_in(s, lo + 1, hi) {
            Some(v) => Some(0 - v),
            None => None,
        }
    } else {
        assert(lo < hi ==> t[0] == s@[lo as int]);
        clock_in(s, lo, hi)
    }
}

/// Reads `s[lo..hi]` as a time span in either encoding.
pub(crate) fn span_in(s: &Vec<char>, lo: usize, hi: usize) -> (r: Result<TimeSpan, ParseError>)
    requires
        lo <= hi <= s@.len(),
    ensures
        match span_value(s@.subrange(lo as int, hi as int)) {
            Some(v) => r == Ok::<TimeSpan, ParseError>(TimeSpan { nanos: v as i64 }),
            None => r == Err::<TimeSpan, ParseError>(ParseError::TimeSpanFormat),
        },
{
    let ghost t = s@.subrange(lo as int, hi as int);
    let d = find_char(s, lo, hi, '.');
    let c = find_char(s, lo, hi, ':');
    if d < hi && c < hi && d < c {
        assert(t.take(d - lo) =~= s@.subrange(lo as int, d as int));
        assert(t.skip(d - lo + 1) =~= s@.subrange(d + 1, hi as int));
        let days = match signed_in(s, lo, d) {
            Ok(v) => v,
            Err(_) => {
                return Err(ParseError::TimeSpanFormat);
            },
        };
        let tod = match plain_in(s, d + 1, hi) {
            Some(v) => v,
            None => {
                return Err(ParseError::TimeSpanFormat);
            },
        };
        let total = days as i128 * 86_400_000_000_000i128 + tod;
        if total > SPAN_LIMIT || total < -SPAN_LIMIT {
            return Err(ParseError::TimeSpanFormat);
        }
        Ok(TimeSpan { nanos: total as i64 })
    } else {
        match plain_in(s, lo, hi) {
            Some(v) => Ok(TimeSpan { nanos: v as i64 }),
            None => Err(ParseError::TimeSpanFormat),
        }
    }
}

/// Reads a time span in either encoding.
pub fn parse_time_span(text: &str) -> (r: Result<TimeSpan, ParseError>)
    ensures
        match span_value(text@) {
            Some(v) => r == Ok::<TimeSpan, ParseError>(TimeSpan { nanos: v as i64 }),
            None => r == Err::<TimeSpan, ParseError>(ParseError::TimeSpanFormat),
        },
{
    let cs = chars_of(text);
    assert(cs@.subrange(0, cs@.len() as int) =~= cs@);
    span_in(&cs, 0, cs.len())
}

/// Whether `s[lo..hi]` spells `lit`.
pub(crate) fn chars_are(s: &Vec<char>, lo: usize, hi: usize, lit: &str) -> (r: bool)
    requires
        lo <= hi <= s@.len(),
    ensures
        r == (s@.subrange(lo as int, hi as int) == lit@),
{
    let n = lit.unicode_len();
    if hi - lo != n {
        return false;
    }
    let mut i: usize = 0;
    while i < n
        invariant
            hi - lo == n == lit@.len(),
            lo <= hi <= s@.len(),
            i <= n,
            forall|j: int| 0 <= j < i ==> s@[lo + j] == lit@[j],
        decreases n - i,
    {
        if s[lo + i] != lit.get_char(i) {
            assert(s@.subrange(lo as int, hi as int)[i as int] != lit@[i as int]);
            return false;
        }
        i = i + 1;
    }
    assert(s@.subrange(lo as int, hi as int) =~= lit@);
    true
}

/// Reads `True` or `False`.
pub fn parse_bool(text: &str) -> (r: Result<bool, ParseError>)
    ensures
        match bool_value(text@) {
            Some(b) => r == Ok::<bool, ParseError>(b),
            None => r == Err::<bool, ParseError>(ParseError::InvalidBoolean),
        },
{
    let cs = chars_of(text);
    assert(cs@.subrange(0, cs@.len() as int) =~= cs@);
    if chars_are(&cs, 0, cs.len(), "True") {
        Ok(true)
    } else if chars_are(&cs, 0, cs.len(), "False") {
        Ok(false)
    } else {
        Err(ParseError::InvalidBoolean)
    }
}

/// A run of `n` digits is worth less than `10^n`.
pub proof fn lemma_digits_below(s: Seq<char>)
    requires
        all_digits(s),
    ensures
        digits_value(s) < pow10(s.len()),
    decreases s.len(),
{
    if s.len() > 0 {
        lemma_digits_below(s.drop_last());
        assert(is_digit(s[s.len() - 1]));
    }
}

pub proof fn lemma_pow10_le(n: nat)
    requires
        n <= 9,
    ensures
        pow10(n) <= 1_000_000_000,
        n == 9 ==> pow10(n) == 1_000_000_000,
{
    reveal_with_fuel(pow10, 10);
}

} // verus!
