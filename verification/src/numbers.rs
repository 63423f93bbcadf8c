//! Decimal digit strings: parsing record ids, integer attribute
//! literals and real attribute literals, and formatting the decimal
//! values that the property tables display.
//!
//! Real attribute values are held in fixed-point micro-units: the
//! parsed literal, scaled by one million, truncated toward zero and
//! clamped to the `i64` range.

use vstd::prelude::*;

verus! {

pub open spec fn is_digit_char(c: char) -> bool {
    48 <= c as u32 <= 57
}

pub open spec fn digit_val(c: char) -> int {
    c as u32 - 48
}

pub open spec fn all_digits(s: Seq<char>) -> bool {
    forall|i: int| 0 <= i < s.len() ==> is_digit_char(#[trigger] s[i])
}

/// The number denoted by a digit string, most significant digit first.
pub open spec fn digits_val(s: Seq<char>) -> int
    decreases s.len(),
{
    if s.len() == 0 {
        0
    } else {
        digits_val(s.drop_last()) * 10 + digit_val(s.last())
    }
}

pub open spec fn pow10(k: nat) -> int
    decreases k,
{
    if k == 0 {
        1
    } else {
        10 * pow10((k - 1) as nat)
    }
}

pub proof fn lemma_pow10_pos(k: nat)
    ensures
        pow10(k) >= 1,
    decreases k,
{
    if k > 0 {
        lemma_pow10_pos((k - 1) as nat);
    }
}

pub proof fn lemma_pow10_20()
    ensures
        pow10(20) == 100000000000000000000,
{
    reveal_with_fuel(pow10, 21);
}

pub proof fn lemma_pow10_36()
    ensures
        pow10(36) == 1000000000000000000000000000000000000,
{
    reveal_with_fuel(pow10, 37);
}

pub proof fn lemma_pow10_mono(a: nat, b: nat)
    requires
        a <= b,
    ensures
        pow10(a) <= pow10(b),
    decreases b,
{
    if a < b {
        lemma_pow10_mono(a, (b - 1) as nat);
        lemma_pow10_pos(a);
    }
}

pub proof fn lemma_pow10_adds(a: nat, b: nat)
    ensures
        pow10(a + b) == pow10(a) * pow10(b),
    decreases a,
{
    if a == 0 {
    } else {
        lemma_pow10_adds((a - 1) as nat, b);
        assert(pow10(a + b) == 10 * pow10((a + b - 1) as nat));
        assert(10 * (pow10((a - 1) as nat) * pow10(b)) == (10 * pow10((a - 1) as nat)) * pow10(b))
            by (nonlinear_arith);
    }
}

/// A digit string's value is nonnegative and below ten to its length.
pub proof fn lemma_digits_val_bound(s: Seq<char>)
    requires
        all_digits(s),
    ensures
        0 <= digits_val(s) < pow10(s.len()),
    decreases s.len(),
{
    if s.len() > 0 {
        lemma_digits_val_bound(s.drop_last());
        assert(is_digit_char(s[s.len() - 1]));
        assert(digits_val(s.drop_last()) * 10 + 10 <= pow10((s.len() - 1) as nat) * 10) by {
            assert(digits_val(s.drop_last()) + 1 <= pow10((s.len() - 1) as nat));
            assert((digits_val(s.drop_last()) + 1) * 10 <= pow10((s.len() - 1) as nat) * 10)
                by (nonlinear_arith)
                requires
                    digits_val(s.drop_last()) + 1 <= pow10((s.len() - 1) as nat),
            ;
        }
    }
}

/// Splitting a digit string: the prefix's value is shifted by the
/// suffix's length.
pub proof fn lemma_digits_val_split(s: Seq<char>, j: int)
    requires
        0 <= j <= s.len(),
    ensures
        digits_val(s) == digits_val(s.take(j)) * pow10((s.len() - j) as nat) + digits_val(
            s.skip(j),
        ),
    decreases s.len() - j,
{
    if j == s.len() {
        assert(s.take(j) =~= s);
        assert(s.skip(j) =~= Seq::<char>::empty());
    } else {
        lemma_digits_val_split(s, j + 1);
        assert(s.take(j + 1).drop_last() =~= s.take(j));
        assert(s.take(j + 1).last() == s[j]);
        let a = digits_val(s.take(j));
        let d = digit_val(s[j]);
        let k = (s.len() - j - 1) as nat;
        assert(s.skip(j)[0] == s[j]);
        assert(s.skip(j).skip(1) =~= s.skip(j + 1));
        lemma_digits_val_head(s.skip(j));
        assert(digits_val(s.skip(j)) == d * pow10(k) + digits_val(s.skip(j + 1)));
        assert(digits_val(s.take(j + 1)) == a * 10 + d);
        assert((a * 10 + d) * pow10(k) == a * (10 * pow10(k)) + d * pow10(k)) by (nonlinear_arith);
        assert(pow10(k + 1) == 10 * pow10(k));
        assert(a * (10 * pow10(k)) == a * pow10(k + 1));
    }
}

/// Peeling the first digit off a digit string.
pub proof fn lemma_digits_val_head(s: Seq<char>)
    requires
        s.len() > 0,
    ensures
        digits_val(s) == digit_val(s[0]) * pow10((s.len() - 1) as nat) + digits_val(s.skip(1)),
    decreases s.len(),
{
    if s.len() == 1 {
        assert(s.drop_last() =~= Seq::<char>::empty());
        assert(s.skip(1) =~= Seq::<char>::empty());
        assert(s.last() == s[0]);
    } else {
        lemma_digits_val_head(s.drop_last());
        assert(s.drop_last()[0] == s[0]);
        assert(s.drop_last().skip(1) =~= s.skip(1).drop_last());
        assert(s.skip(1).last() == s.last());
        let d = digit_val(s[0]);
        let k = (s.len() - 2) as nat;
        assert(digits_val(s) == (d * pow10(k) + digits_val(s.skip(1).drop_last())) * 10 + digit_val(
            s.last(),
        ));
        assert((d * pow10(k) + digits_val(s.skip(1).drop_last())) * 10 == d * (pow10(k) * 10)
            + digits_val(s.skip(1).drop_last()) * 10) by (nonlinear_arith);
        assert(pow10(k + 1) == 10 * pow10(k));
    }
}

/// A prefix of a digit string never exceeds the whole.
pub proof fn lemma_digits_val_prefix_le(s: Seq<char>, j: int)
    requires
        all_digits(s),
        0 <= j <= s.len(),
    ensures
        digits_val(s.take(j)) <= digits_val(s),
{
    lemma_digits_val_split(s, j);
    assert(all_digits(s.skip(j)));
    lemma_digits_val_bound(s.skip(j));
    lemma_pow10_pos((s.len() - j) as nat);
    let a = digits_val(s.take(j));
    let p = pow10((s.len() - j) as nat);
    assert(all_digits(s.take(j)));
    lemma_digits_val_bound(s.take(j));
    assert(a * p >= a * 1) by (nonlinear_arith)
        requires
            a >= 0,
            p >= 1,
    ;
}

pub open spec fn spec_parse_u64(s: Seq<char>) -> Option<u64> {
    if s.len() > 0 && all_digits(s) && digits_val(s) <= u64::MAX {
        Some(digits_val(s) as u64)
    } else {
        None
    }
}

/// Parses a run of decimal digits as a `u64`; `None` when empty, when a
/// character is not a digit, or when the value overflows.
pub fn parse_u64(s: &Vec<char>, from: usize, to: usize) -> (r: Option<u64>)
    requires
        from <= to <= s@.len(),
    ensures
        r == spec_parse_u64(s@.subrange(from as int, to as int)),
{
    let ghost d = s@.subrange(from as int, to as int);
    if from == to {
        return None;
    }
    let mut acc: u64 = 0;
    let mut i: usize = from;
    while i < to
        invariant
            from <= i <= to <= s@.len(),
            d == s@.subrange(from as int, to as int),
            all_digits(d.take(i - from)),
            acc == digits_val(d.take(i - from)),
        decreases to - i,
    {
        let c = s[i];
        let u = c as u32;
        if u < 48 || u > 57 {
            proof {
                assert(d[i - from] == c);
                assert(!all_digits(d));
            }
            return None;
        }
        let dv = (u - 48) as u64;
        proof {
            assert(d.take(i + 1 - from).drop_last() =~= d.take(i - from));
            assert(d.take(i + 1 - from).last() == c);
        }
        if acc > (u64::MAX - dv) / 10 {
            proof {
                assert(digits_val(d.take(i + 1 - from)) == acc * 10 + dv);
                assert(acc * 10 + dv > u64::MAX) by (nonlinear_arith)
                    requires
                        acc > (u64::MAX - dv) / 10,
                        0 <= dv <= 9,
                ;
                if all_digits(d) && digits_val(d) <= u64::MAX {
                    lemma_digits_val_prefix_le(d, i + 1 - from);
                }
            }
            return None;
        }
        acc = acc * 10 + dv;
        i = i + 1;
    }
    proof {
        assert(d.take(to - from) =~= d);
    }
    Some(acc)
}

pub open spec fn spec_digit_char(d: int) -> char {
    if d == 0 {
        '0'
    } else if d == 1 {
        '1'
    } else if d == 2 {
        '2'
    } else if d == 3 {
        '3'
    } else if d == 4 {
        '4'
    } else if d == 5 {
        '5'
    } else if d == 6 {
        '6'
    } else if d == 7 {
        '7'
    } else if d == 8 {
        '8'
    } else {
        '9'
    }
}

fn digit_char(d: u64) -> (c: char)
    requires
        d < 10,
    ensures
        c == spec_digit_char(d as int),
{
    if d == 0 {
        '0'
    } else if d == 1 {
        '1'
    } else if d == 2 {
        '2'
    } else if d == 3 {
        '3'
    } else if d == 4 {
        '4'
    } else if d == 5 {
        '5'
    } else if d == 6 {
        '6'
    } else if d == 7 {
        '7'
    } else if d == 8 {
        '8'
    } else {
        '9'
    }
}

/// The decimal digit string of `n`, most significant digit first.
pub open spec fn spec_u64_chars(n: u64) -> Seq<char>
    decreases n,
{
    if n < 10 {
        seq![spec_digit_char(n as int)]
    } else {
        spec_u64_chars(n / 10).push(spec_digit_char((n % 10) as int))
    }
}

pub fn u64_chars(n: u64) -> (v: Vec<char>)
    ensures
        v@ == spec_u64_chars(n),
    decreases n,
{
    if n < 10 {
        let mut v: Vec<char> = Vec::new();
        v.push(digit_char(n));
        proof {
            assert(v@ =~= spec_u64_chars(n));
        }
        v
    } else {
        let mut v = u64_chars(n / 10);
        v.push(digit_char(n % 10));
        v
    }
}

/// Magnitude of a signed value as mathematical integer.
pub open spec fn spec_abs_i64(m: i64) -> int {
    if m < 0 {
        -(m as int)
    } else {
        m as int
    }
}

fn abs_u64_of(m: i64) -> (r: u64)
    ensures
        r == spec_abs_i64(m),
{
    if m == i64::MIN {
        9223372036854775808u64
    } else if m < 0 {
        (-m) as u64
    } else {
        m as u64
    }
}

/// The decimal rendering of a signed integer attribute.
pub open spec fn spec_i64_chars(n: i64) -> Seq<char> {
    if n < 0 {
        seq!['-'] + spec_u64_chars(spec_abs_i64(n) as u64)
    } else {
        spec_u64_chars(n as u64)
    }
}

pub fn i64_chars(n: i64) -> (v: Vec<char>)
    ensures
        v@ == spec_i64_chars(n),
{
    if n < 0 {
        let mag: u64 = abs_u64_of(n);
        let mut v: Vec<char> = Vec::new();
        v.push('-');
        let mut tail = u64_chars(mag);
        v.append(&mut tail);
        proof {
            assert(v@ =~= spec_i64_chars(n));
        }
        v
    } else {
        u64_chars(n as u64)
    }
}

/// A micro-unit value rendered with two decimal places, rounding half
/// away from zero.
pub open spec fn spec_micro_2dp(m: i64) -> Seq<char> {
    let c = (spec_abs_i64(m) + 5000) / 10000;
    let body = spec_u64_chars((c / 100) as u64) + seq!['.', spec_digit_char(c % 100 / 10), spec_digit_char(c % 10)];
    if m < 0 {
        seq!['-'] + body
    } else {
        body
    }
}

pub fn micro_2dp_chars(m: i64) -> (v: Vec<char>)
    ensures
        v@ == spec_micro_2dp(m),
{
    let mag: u64 = abs_u64_of(m);
    let c: u64 = (mag + 5000) / 10000;
    let mut v: Vec<char> = Vec::new();
    if m < 0 {
        v.push('-');
    }
    let mut ip = u64_chars(c / 100);
    v.append(&mut ip);
    v.push('.');
    v.push(digit_char(c % 100 / 10));
    v.push(digit_char(c % 10));
    proof {
        assert(v@ =~= spec_micro_2dp(m));
    }
    v
}

/// A micro-unit value rounded to a whole number, rounding half away
/// from zero, with a millimetre unit suffix.
pub open spec fn spec_micro_mm(m: i64) -> Seq<char> {
    let r = (spec_abs_i64(m) + 500000) / 1000000;
    let body = spec_u64_chars(r as u64) + seq![' ', 'm', 'm'];
    if m < 0 {
        seq!['-'] + body
    } else {
        body
    }
}

pub fn micro_mm_chars(m: i64) -> (v: Vec<char>)
    ensures
        v@ == spec_micro_mm(m),
{
    let mag: u64 = abs_u64_of(m);
    let r: u64 = (mag + 500000) / 1000000;
    let mut v: Vec<char> = Vec::new();
    if m < 0 {
        v.push('-');
    }
    let mut ip = u64_chars(r);
    v.append(&mut ip);
    v.push(' ');
    v.push('m');
    v.push('m');
    proof {
        assert(v@ =~= spec_micro_mm(m));
    }
    v
}

} // verus!
