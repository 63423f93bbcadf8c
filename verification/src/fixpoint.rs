//! Parsing of real attribute literals into fixed-point micro-units.
//!
//! A real literal is an optional sign, an integer digit part and a
//! fraction digit part around an optional decimal point (at least one
//! digit in total), and an optional decimal exponent.  Its value,
//! scaled by one million, truncated toward zero and clamped to the
//! `i64` range, is the micro-unit fixed-point value the model stores.

use vstd::prelude::*;
use vstd::arithmetic::div_mod::lemma_basic_div;
use vstd::arithmetic::div_mod::lemma_fundamental_div_mod_converse_div;

verus! {

use crate::numbers::all_digits;
use crate::numbers::digit_val;
use crate::numbers::digits_val;
use crate::numbers::is_digit_char;
use crate::numbers::lemma_digits_val_bound;
use crate::numbers::lemma_digits_val_head;
use crate::numbers::lemma_digits_val_split;
use crate::numbers::lemma_pow10_mono;
use crate::numbers::lemma_pow10_20;
use crate::numbers::lemma_pow10_36;
use crate::numbers::lemma_pow10_pos;
use crate::numbers::lemma_pow10_adds;
use crate::numbers::pow10;
use crate::numbers::spec_parse_u64;
use crate::text::subvec;

/// First position holding `c1` or `c2`.
pub open spec fn first_index_of(s: Seq<char>, c1: char, c2: char) -> Option<int>
    decreases s.len(),
{
    if s.len() == 0 {
        None
    } else if s[0] == c1 || s[0] == c2 {
        Some(0int)
    } else {
        match first_index_of(s.skip(1), c1, c2) {
            Some(i) => Some(i + 1),
            None => None,
        }
    }
}

pub open spec fn spec_sign_len(s: Seq<char>) -> int {
    if s.len() > 0 && (s[0] == '+' || s[0] == '-') {
        1
    } else {
        0
    }
}

pub open spec fn spec_is_neg(s: Seq<char>) -> bool {
    s.len() > 0 && s[0] == '-'
}

/// The digit span of a literal between the sign and the exponent marker.
pub open spec fn spec_mantissa(s: Seq<char>) -> Seq<char> {
    let body = s.skip(spec_sign_len(s));
    match first_index_of(body, 'e', 'E') {
        Some(i) => body.take(i),
        None => body,
    }
}

/// The characters after the exponent marker, when one is present.
pub open spec fn spec_exp_part(s: Seq<char>) -> Option<Seq<char>> {
    let body = s.skip(spec_sign_len(s));
    match first_index_of(body, 'e', 'E') {
        Some(i) => Some(body.skip(i + 1)),
        None => None,
    }
}

pub open spec fn spec_int_digits(m: Seq<char>) -> Seq<char> {
    match first_index_of(m, '.', '.') {
        Some(i) => m.take(i),
        None => m,
    }
}

pub open spec fn spec_frac_digits(m: Seq<char>) -> Seq<char> {
    match first_index_of(m, '.', '.') {
        Some(i) => m.skip(i + 1),
        None => Seq::<char>::empty(),
    }
}

pub open spec fn spec_exp_valid(e: Seq<char>) -> bool {
    let d = e.skip(spec_sign_len(e));
    d.len() > 0 && all_digits(d)
}

pub open spec fn spec_exp_value(e: Seq<char>) -> int {
    let d = e.skip(spec_sign_len(e));
    if spec_is_neg(e) {
        -digits_val(d)
    } else {
        digits_val(d)
    }
}

/// Whether `s` lexes as a real literal.
pub open spec fn spec_real_valid(s: Seq<char>) -> bool {
    let m = spec_mantissa(s);
    &&& all_digits(spec_int_digits(m))
    &&& all_digits(spec_frac_digits(m))
    &&& spec_int_digits(m).len() + spec_frac_digits(m).len() > 0
    &&& match spec_exp_part(s) {
        Some(e) => spec_exp_valid(e),
        None => true,
    }
}

pub open spec fn clamp_i64(v: int) -> i64 {
    if v > i64::MAX {
        i64::MAX
    } else if v < i64::MIN {
        i64::MIN
    } else {
        v as i64
    }
}

/// The value shifted by a signed power of ten, truncating toward zero
/// for nonnegative values.
pub open spec fn spec_shift10(m: int, p: int) -> int {
    if p >= 0 {
        m * pow10(p as nat)
    } else {
        m / pow10((-p) as nat)
    }
}

/// The micro-unit value of a valid real literal.
pub open spec fn spec_real_micro(s: Seq<char>) -> i64 {
    let m = spec_mantissa(s);
    let d = spec_int_digits(m) + spec_frac_digits(m);
    let e = match spec_exp_part(s) {
        Some(ep) => spec_exp_value(ep),
        None => 0int,
    };
    let p = e - spec_frac_digits(m).len() + 6;
    let mag = spec_shift10(digits_val(d), p);
    if spec_is_neg(s) {
        clamp_i64(-mag)
    } else {
        clamp_i64(mag)
    }
}

pub open spec fn spec_parse_real(s: Seq<char>) -> Option<i64> {
    if spec_real_valid(s) {
        Some(spec_real_micro(s))
    } else {
        None
    }
}

/// Whether `s` lexes as a signed integer literal.
pub open spec fn spec_int_literal_valid(s: Seq<char>) -> bool {
    let d = s.skip(spec_sign_len(s));
    d.len() > 0 && all_digits(d)
}

pub open spec fn spec_int_literal_value(s: Seq<char>) -> int {
    let d = s.skip(spec_sign_len(s));
    if spec_is_neg(s) {
        -digits_val(d)
    } else {
        digits_val(d)
    }
}

pub open spec fn spec_parse_i64(s: Seq<char>) -> Option<i64> {
    if spec_int_literal_valid(s) && i64::MIN <= spec_int_literal_value(s) <= i64::MAX {
        Some(spec_int_literal_value(s) as i64)
    } else {
        None
    }
}

/// Finds the first position in `s[from..to]` holding `c1` or `c2`.
pub fn find_char2(s: &Vec<char>, from: usize, to: usize, c1: char, c2: char) -> (r: Option<usize>)
    requires
        from <= to <= s@.len(),
    ensures
        match r {
            Some(i) => from <= i < to && first_index_of(
                s@.subrange(from as int, to as int),
                c1,
                c2,
            ) == Some(i - from),
            None => first_index_of(s@.subrange(from as int, to as int), c1, c2) is None,
        },
{
    let ghost whole = s@.subrange(from as int, to as int);
    let mut i: usize = from;
    while i < to
        invariant
            from <= i <= to <= s@.len(),
            whole == s@.subrange(from as int, to as int),
            match first_index_of(s@.subrange(i as int, to as int), c1, c2) {
                Some(k) => first_index_of(whole, c1, c2) == Some(i - from + k),
                None => first_index_of(whole, c1, c2) is None,
            },
        decreases to - i,
    {
        let c = s[i];
        proof {
            assert(s@.subrange(i as int, to as int)[0] == c);
            assert(s@.subrange(i as int, to as int).skip(1) =~= s@.subrange(i + 1, to as int));
        }
        if c == c1 || c == c2 {
            return Some(i);
        }
        i = i + 1;
    }
    proof {
        assert(s@.subrange(to as int, to as int).len() == 0);
    }
    None
}

/// Checks that every character of `s[from..to]` is a decimal digit.
fn all_digits_range(s: &Vec<char>, from: usize, to: usize) -> (r: bool)
    requires
        from <= to <= s@.len(),
    ensures
        r == all_digits(s@.subrange(from as int, to as int)),
{
    let ghost d = s@.subrange(from as int, to as int);
    let mut i: usize = from;
    while i < to
        invariant
            from <= i <= to <= s@.len(),
            d == s@.subrange(from as int, to as int),
            forall|j: int| 0 <= j < i - from ==> is_digit_char(#[trigger] d[j]),
        decreases to - i,
    {
        let u = s[i] as u32;
        if u < 48 || u > 57 {
            proof {
                assert(d[i - from] == s@[i as int]);
            }
            return false;
        }
        i = i + 1;
    }
    true
}

pub const DIGIT_CAP: u128 = 1000000000000000000000000000000;

/// The value of a digit run, exact up to `DIGIT_CAP` and capped above it.
fn digits_u128_sat(s: &Vec<char>, from: usize, to: usize) -> (r: u128)
    requires
        from <= to <= s@.len(),
        all_digits(s@.subrange(from as int, to as int)),
    ensures
        digits_val(s@.subrange(from as int, to as int)) <= DIGIT_CAP ==> r == digits_val(
            s@.subrange(from as int, to as int),
        ),
        digits_val(s@.subrange(from as int, to as int)) > DIGIT_CAP ==> r == DIGIT_CAP + 1,
{
    let ghost d = s@.subrange(from as int, to as int);
    let mut acc: u128 = 0;
    let mut i: usize = from;
    while i < to
        invariant
            from <= i <= to <= s@.len(),
            d == s@.subrange(from as int, to as int),
            all_digits(d),
            digits_val(d.take(i - from)) <= DIGIT_CAP ==> acc == digits_val(d.take(i - from)),
            digits_val(d.take(i - from)) > DIGIT_CAP ==> acc == DIGIT_CAP + 1,
        decreases to - i,
    {
        let c = s[i];
        proof {
            assert(is_digit_char(d[i - from]));
            assert(d.take(i + 1 - from).drop_last() =~= d.take(i - from));
            assert(d.take(i + 1 - from).last() == c);
            assert(all_digits(d.take(i - from)));
            lemma_digits_val_bound(d.take(i - from));
        }
        let dv = (c as u32 - 48) as u128;
        let ghost prev = digits_val(d.take(i - from));
        let ghost cur = digits_val(d.take(i + 1 - from));
        proof {
            assert(cur == prev * 10 + dv);
            if prev > DIGIT_CAP {
                assert(prev * 10 >= prev) by (nonlinear_arith)
                    requires
                        prev >= 0,
                ;
                assert(cur > DIGIT_CAP);
            }
        }
        if acc > DIGIT_CAP {
            // stays capped
        } else {
            let next: u128 = acc * 10 + dv;
            if next > DIGIT_CAP {
                acc = DIGIT_CAP + 1;
            } else {
                acc = next;
            }
        }
        i = i + 1;
    }
    proof {
        assert(d.take(to - from) =~= d);
    }
    acc
}

/// Ten to the power `k`, exactly, for small `k`.
fn pow10_u128(k: u64) -> (r: u128)
    requires
        k <= 37,
    ensures
        r == pow10(k as nat),
{
    let mut acc: u128 = 1;
    let mut i: u64 = 0;
    while i < k
        invariant
            i <= k <= 37,
            acc == pow10(i as nat),
        decreases k - i,
    {
        proof {
            lemma_pow10_mono(i as nat, 36);
            lemma_pow10_36();
            assert(pow10(36nat) < u128::MAX / 10);
        }
        acc = acc * 10;
        i = i + 1;
    }
    acc
}

/// A run of `'0'` characters has value zero.
proof fn lemma_zero_digits_val(s: Seq<char>)
    requires
        forall|i: int| 0 <= i < s.len() ==> digit_val(#[trigger] s[i]) == 0,
    ensures
        digits_val(s) == 0,
    decreases s.len(),
{
    if s.len() > 0 {
        lemma_zero_digits_val(s.drop_last());
        assert(s.last() == s[s.len() - 1]);
    }
}

/// Leading zeros do not change a digit run's value.
proof fn lemma_skip_zeros(s: Seq<char>, z: int)
    requires
        all_digits(s),
        0 <= z <= s.len(),
        forall|i: int| 0 <= i < z ==> digit_val(#[trigger] s[i]) == 0,
    ensures
        digits_val(s) == digits_val(s.skip(z)),
{
    lemma_digits_val_split(s, z);
    assert(forall|i: int| 0 <= i < z ==> digit_val(#[trigger] s.take(z)[i]) == 0);
    lemma_zero_digits_val(s.take(z));
    assert(0 * pow10((s.len() - z) as nat) == 0) by (nonlinear_arith);
}

/// A digit run whose first significant digit is at `z` is at least
/// ten to the count of remaining positions.
proof fn lemma_sig_lower(s: Seq<char>, z: int)
    requires
        all_digits(s),
        0 <= z < s.len(),
        digit_val(s[z]) != 0,
        forall|i: int| 0 <= i < z ==> digit_val(#[trigger] s[i]) == 0,
    ensures
        digits_val(s) >= pow10((s.len() - 1 - z) as nat),
{
    lemma_skip_zeros(s, z);
    let t = s.skip(z);
    lemma_digits_val_head(t);
    assert(t[0] == s[z]);
    assert(is_digit_char(s[z]));
    assert(digit_val(s[z]) >= 1);
    assert(digit_val(t[0]) >= 1);
    assert(all_digits(t.skip(1))) by {
        assert(forall|i: int| 0 <= i < t.skip(1).len() ==> is_digit_char(#[trigger] t.skip(1)[i]))
            by {
            assert(forall|i: int| 0 <= i < t.skip(1).len() ==> t.skip(1)[i] == s[z + 1 + i]);
        }
    }
    lemma_digits_val_bound(t.skip(1));
    let k = (t.len() - 1) as nat;
    assert(digit_val(t[0]) * pow10(k) >= 1 * pow10(k)) by (nonlinear_arith)
        requires
            digit_val(t[0]) >= 1,
            pow10(k) >= 1,
    ;
    lemma_pow10_pos(k);
}

/// An upper bound on a digit run from its significant length.
proof fn lemma_sig_upper(s: Seq<char>, z: int)
    requires
        all_digits(s),
        0 <= z <= s.len(),
        forall|i: int| 0 <= i < z ==> digit_val(#[trigger] s[i]) == 0,
    ensures
        digits_val(s) < pow10((s.len() - z) as nat),
{
    lemma_skip_zeros(s, z);
    assert(all_digits(s.skip(z))) by {
        assert(forall|i: int| 0 <= i < s.skip(z).len() ==> s.skip(z)[i] == s[z + i]);
    }
    lemma_digits_val_bound(s.skip(z));
}

/// Removing the last `k` digits of a run divides its value by ten to
/// the `k`, truncating.
proof fn lemma_floor_prefix(s: Seq<char>, keep: int)
    requires
        all_digits(s),
        0 <= keep <= s.len(),
    ensures
        digits_val(s) / pow10((s.len() - keep) as nat) == digits_val(s.take(keep)),
{
    lemma_digits_val_split(s, keep);
    let q = digits_val(s.take(keep));
    let d = pow10((s.len() - keep) as nat);
    let r = digits_val(s.skip(keep));
    assert(all_digits(s.skip(keep))) by {
        assert(forall|i: int| 0 <= i < s.skip(keep).len() ==> s.skip(keep)[i] == s[keep + i]);
    }
    lemma_digits_val_bound(s.skip(keep));
    lemma_pow10_pos((s.len() - keep) as nat);
    lemma_fundamental_div_mod_converse_div(digits_val(s), d, q, r);
}


/// A value at least ten to the `lo` keeps that bound, shifted, through
/// a decimal shift that lands at a nonnegative power.
proof fn lemma_shift10_lower(m: int, lo: nat, p: int)
    requires
        m >= pow10(lo),
        lo + p >= 0,
    ensures
        spec_shift10(m, p) >= pow10((lo + p) as nat),
{
    if p >= 0 {
        lemma_pow10_adds(lo, p as nat);
        lemma_pow10_pos(p as nat);
        lemma_pow10_pos(lo);
        assert(m * pow10(p as nat) >= pow10(lo) * pow10(p as nat)) by (nonlinear_arith)
            requires
                m >= pow10(lo),
                pow10(p as nat) >= 1,
        ;
    } else {
        let k = (-p) as nat;
        lemma_pow10_adds((lo - k) as nat, k);
        lemma_pow10_pos(k);
        lemma_pow10_pos((lo - k) as nat);
        vstd::arithmetic::div_mod::lemma_div_is_ordered(pow10(lo), m, pow10(k));
        lemma_fundamental_div_mod_converse_div(
            pow10((lo - k) as nat) * pow10(k),
            pow10(k),
            pow10((lo - k) as nat),
            0,
        );
    }
}

/// A digit run whose first significant digit stands `21` or more
/// decimal places above the shift target exceeds the `i64` range.
proof fn lemma_shift10_saturates(d: Seq<char>, z: int, p: int)
    requires
        all_digits(d),
        0 <= z < d.len(),
        digit_val(d[z]) != 0,
        forall|i: int| 0 <= i < z ==> digit_val(#[trigger] d[i]) == 0,
        d.len() - z + p > 20,
    ensures
        spec_shift10(digits_val(d), p) > i64::MAX,
{
    lemma_sig_lower(d, z);
    lemma_shift10_lower(digits_val(d), (d.len() - 1 - z) as nat, p);
    lemma_pow10_mono(20, (d.len() - 1 - z + p) as nat);
    lemma_pow10_20();
}

/// A shift down by at least the run's length truncates to zero.
proof fn lemma_shift10_underflow(d: Seq<char>, p: int)
    requires
        all_digits(d),
        p < 0,
        -p >= d.len(),
    ensures
        spec_shift10(digits_val(d), p) == 0,
{
    lemma_digits_val_bound(d);
    lemma_pow10_mono(d.len() as nat, (-p) as nat);
    lemma_pow10_pos((-p) as nat);
    lemma_basic_div(digits_val(d), pow10((-p) as nat));
}

/// Computes the shifted magnitude of a digit run whose significant
/// part fits the representable range.
#[verifier::rlimit(60)]
fn shift_magnitude(dvec: &Vec<char>, z: usize, p_i: i128) -> (mag: u128)
    requires
        all_digits(dvec@),
        z < dvec@.len(),
        forall|i: int| 0 <= i < z ==> digit_val(#[trigger] dvec@[i]) == 0,
        digit_val(dvec@[z as int]) != 0,
        dvec@.len() - z + p_i <= 20,
    ensures
        mag == spec_shift10(digits_val(dvec@), p_i as int),
{
    let ghost dseq = dvec@;
    let ghost m = digits_val(dseq);
    let ghost p = p_i as int;
    let dlen: usize = dvec.len();
    proof {
        lemma_sig_upper(dseq, z as int);
        lemma_pow10_20();
    }
    if p_i >= 0 {
        proof {
            lemma_pow10_mono((dlen - z) as nat, 20);
        }
        let acc = digits_u128_sat(dvec, 0, dlen);
        proof {
            assert(dvec@.subrange(0, dlen as int) =~= dseq);
            assert(m < pow10((dlen - z) as nat));
            assert(acc == m);
        }
        let pw = pow10_u128(p_i as u64);
        proof {
            lemma_pow10_adds((dlen - z) as nat, p as nat);
            lemma_pow10_pos(p as nat);
            assert(m * pow10(p as nat) < pow10((dlen - z) as nat) * pow10(p as nat))
                by (nonlinear_arith)
                requires
                    0 <= m < pow10((dlen - z) as nat),
                    pow10(p as nat) >= 1,
            ;
            lemma_pow10_mono((dlen - z + p) as nat, 20);
            assert(pow10(20nat) < u128::MAX);
        }
        acc * pw
    } else {
        let ghost k = (-p) as nat;
        let keep: i128 = (dlen as i128) + p_i;
        proof {
            lemma_pow10_pos(k);
        }
        if keep <= z as i128 {
            proof {
                if keep <= 0 {
                    lemma_shift10_underflow(dseq, p);
                } else {
                    lemma_floor_prefix(dseq, keep as int);
                    assert(forall|i: int|
                        0 <= i < keep ==> digit_val(#[trigger] dseq.take(keep as int)[i]) == 0);
                    lemma_zero_digits_val(dseq.take(keep as int));
                }
            }
            0u128
        } else {
            let kp: usize = keep as usize;
            proof {
                lemma_floor_prefix(dseq, kp as int);
                assert(forall|i: int|
                    0 <= i < z ==> digit_val(#[trigger] dseq.take(kp as int)[i]) == 0);
                assert(all_digits(dseq.take(kp as int)));
                lemma_sig_upper(dseq.take(kp as int), z as int);
                lemma_pow10_mono((kp - z) as nat, 20);
            }
            let acc = digits_u128_sat(dvec, 0, kp);
            proof {
                assert(dvec@.subrange(0, kp as int) =~= dseq.take(kp as int));
                assert(acc == digits_val(dseq.take(kp as int)));
            }
            acc
        }
    }
}

fn saturated(neg: bool) -> (r: i64)
    ensures
        r == if neg {
            i64::MIN
        } else {
            i64::MAX
        },
{
    if neg {
        i64::MIN
    } else {
        i64::MAX
    }
}

/// Clamps a nonnegative magnitude into `i64`, negating it first when
/// the literal is negative.
fn clamp_signed(mag: u128, neg: bool) -> (r: i64)
    ensures
        r == if neg {
            clamp_i64(-(mag as int))
        } else {
            clamp_i64(mag as int)
        },
{
    if neg {
        if mag >= 9223372036854775808u128 {
            i64::MIN
        } else {
            -(mag as i64)
        }
    } else {
        if mag > 9223372036854775807u128 {
            i64::MAX
        } else {
            mag as i64
        }
    }
}

/// The magnitude shifted and clamped, negated for a negative literal.
pub open spec fn spec_signed_shift(m: int, p: int, neg: bool) -> i64 {
    if neg {
        clamp_i64(-spec_shift10(m, p))
    } else {
        clamp_i64(spec_shift10(m, p))
    }
}

/// Computes the micro-unit value of a validated literal: the digit run
/// `dvec`, of which the last `fraclen` digits are the fraction, scaled
/// by the exponent denoted by `s[eb..to]` when one is present.
#[verifier::rlimit(80)]
fn real_value(
    dvec: &Vec<char>,
    fraclen: usize,
    has_exp: bool,
    e_neg: bool,
    s: &Vec<char>,
    eb: usize,
    to: usize,
    Ghost(ev): Ghost<int>,
    neg: bool,
) -> (r: i64)
    requires
        all_digits(dvec@),
        eb <= to <= s@.len(),
        has_exp ==> eb < to && all_digits(s@.subrange(eb as int, to as int)),
        has_exp ==> ev == (if e_neg {
            -digits_val(s@.subrange(eb as int, to as int))
        } else {
            digits_val(s@.subrange(eb as int, to as int))
        }),
        !has_exp ==> ev == 0,
    ensures
        r == spec_signed_shift(digits_val(dvec@), ev - fraclen + 6, neg),
{
    let ghost dseq = dvec@;
    let ghost p = ev - fraclen + 6;
    let ghost m = digits_val(dseq);
    let dlen: usize = dvec.len();
    // leading zeros
    let mut z: usize = 0;
    while z < dlen && dvec[z] as u32 == 48
        invariant
            z <= dlen,
            dlen == dvec@.len(),
            dvec@ == dseq,
            forall|i: int| 0 <= i < z ==> digit_val(#[trigger] dseq[i]) == 0,
        decreases dlen - z,
    {
        z = z + 1;
    }
    if z == dlen {
        proof {
            lemma_zero_digits_val(dseq);
            if p >= 0 {
                assert(0 * pow10(p as nat) == 0) by (nonlinear_arith);
            } else {
                lemma_pow10_pos((-p) as nat);
                lemma_basic_div(0, pow10((-p) as nat));
            }
        }
        return 0i64;
    }
    proof {
        assert(is_digit_char(dseq[z as int]));
        assert(digit_val(dseq[z as int]) != 0);
    }
    // exponent value, capped
    let mut exp_huge: bool = false;
    let mut eraw: u128 = 0;
    if has_exp {
        eraw = digits_u128_sat(s, eb, to);
        if eraw > DIGIT_CAP {
            exp_huge = true;
        }
    }
    let ghost edigits = s@.subrange(eb as int, to as int);
    if exp_huge {
        proof {
            assert(digits_val(edigits) > DIGIT_CAP);
        }
        if e_neg {
            // the value is far below one micro-unit: it truncates to zero
            proof {
                assert(p < -(DIGIT_CAP as int) + 7);
                lemma_shift10_underflow(dseq, p);
            }
            return 0i64;
        } else {
            // the value is far above the representable range
            proof {
                assert(p > DIGIT_CAP as int - usize::MAX as int - 7);
                lemma_shift10_saturates(dseq, z as int, p);
            }
            return saturated(neg);
        }
    }
    // exact exponent
    let ei: i128 = eraw as i128;
    let esigned: i128 = if e_neg {
        -ei
    } else {
        ei
    };
    proof {
        assert(esigned == ev);
    }
    let p_i: i128 = esigned - (fraclen as i128) + 6;
    proof {
        assert(p_i == p);
    }
    let nsig: usize = dlen - z;
    if (nsig as i128) + p_i > 20 {
        proof {
            lemma_shift10_saturates(dseq, z as int, p);
        }
        return saturated(neg);
    }
    let mag: u128 = shift_magnitude(&dvec, z, p_i);
    clamp_signed(mag, neg)
}

/// Parses `s[from..to]` as a real literal in micro-units.
#[verifier::rlimit(80)]
pub fn parse_real(s: &Vec<char>, from: usize, to: usize) -> (r: Option<i64>)
    requires
        from <= to <= s@.len(),
    ensures
        r == spec_parse_real(s@.subrange(from as int, to as int)),
{
    let ghost g = s@.subrange(from as int, to as int);
    let mut neg: bool = false;
    let mut b0: usize = from;
    if to > from && (s[from] == '+' || s[from] == '-') {
        neg = s[from] == '-';
        b0 = from + 1;
    }
    proof {
        assert(b0 - from == spec_sign_len(g));
        assert(neg == spec_is_neg(g));
        assert(g.skip(spec_sign_len(g)) =~= s@.subrange(b0 as int, to as int));
    }
    let ghost body = g.skip(spec_sign_len(g));
    // exponent marker
    let me: usize;
    let has_exp: bool;
    match find_char2(s, b0, to, 'e', 'E') {
        Some(i) => {
            me = i;
            has_exp = true;
        },
        None => {
            me = to;
            has_exp = false;
        },
    }
    proof {
        assert(spec_mantissa(g) =~= s@.subrange(b0 as int, me as int));
        if has_exp {
            assert(spec_exp_part(g) == Some(body.skip(me - b0 + 1)));
            assert(body.skip(me - b0 + 1) =~= s@.subrange(me + 1, to as int));
        } else {
            assert(spec_exp_part(g) is None);
        }
    }
    let ghost mant = spec_mantissa(g);
    // decimal point
    let id_end: usize;
    let fs: usize;
    match find_char2(s, b0, me, '.', '.') {
        Some(i) => {
            id_end = i;
            fs = i + 1;
        },
        None => {
            id_end = me;
            fs = me;
        },
    }
    proof {
        assert(mant == s@.subrange(b0 as int, me as int));
        assert(spec_int_digits(mant) =~= s@.subrange(b0 as int, id_end as int));
        assert(spec_frac_digits(mant) =~= s@.subrange(fs as int, me as int));
    }
    let ghost idg = spec_int_digits(mant);
    let ghost fdg = spec_frac_digits(mant);
    if id_end - b0 == 0 && me - fs == 0 {
        return None;
    }
    if !all_digits_range(s, b0, id_end) {
        return None;
    }
    if !all_digits_range(s, fs, me) {
        return None;
    }
    // exponent part
    let mut e_neg: bool = false;
    let mut eb: usize = to;
    if has_exp {
        eb = me + 1;
        if to > eb && (s[eb] == '+' || s[eb] == '-') {
            e_neg = s[eb] == '-';
            eb = eb + 1;
        }
        proof {
            let ep = spec_exp_part(g)->0;
            assert(ep == s@.subrange(me + 1, to as int));
            assert(eb - (me + 1) == spec_sign_len(ep));
            assert(e_neg == spec_is_neg(ep));
            assert(ep.skip(spec_sign_len(ep)) =~= s@.subrange(eb as int, to as int));
        }
        if eb == to {
            return None;
        }
        if !all_digits_range(s, eb, to) {
            return None;
        }
    }
    proof {
        assert(spec_real_valid(g));
    }
    // digit string: integer digits followed by fraction digits
    let mut dvec = subvec(s, b0, id_end);
    let mut f2 = subvec(s, fs, me);
    dvec.append(&mut f2);
    proof {
        assert(dvec@ =~= idg + fdg);
        assert(all_digits(idg + fdg));
    }
    let fraclen: usize = me - fs;
    let ghost ev = match spec_exp_part(g) {
        Some(ep) => spec_exp_value(ep),
        None => 0int,
    };
    let r = real_value(&dvec, fraclen, has_exp, e_neg, s, eb, to, Ghost(ev), neg);
    proof {
        assert(fraclen == fdg.len());
        assert(r == spec_real_micro(g));
    }
    Some(r)
}

/// Parses `s[from..to]` as a signed integer literal.
pub fn parse_i64(s: &Vec<char>, from: usize, to: usize) -> (r: Option<i64>)
    requires
        from <= to <= s@.len(),
    ensures
        r == spec_parse_i64(s@.subrange(from as int, to as int)),
{
    let ghost g = s@.subrange(from as int, to as int);
    let mut neg: bool = false;
    let mut b0: usize = from;
    if to > from && (s[from] == '+' || s[from] == '-') {
        neg = s[from] == '-';
        b0 = from + 1;
    }
    proof {
        assert(b0 - from == spec_sign_len(g));
        assert(neg == spec_is_neg(g));
        assert(g.skip(spec_sign_len(g)) =~= s@.subrange(b0 as int, to as int));
    }
    let ghost d = g.skip(spec_sign_len(g));
    match crate::numbers::parse_u64(s, b0, to) {
        Some(mag) => {
            proof {
                assert(d.len() > 0 && all_digits(d));
                assert(spec_int_literal_valid(g));
                lemma_digits_val_bound(d);
                assert(mag == digits_val(d));
            }
            if neg {
                if mag > 9223372036854775808u64 {
                    proof {
                        assert(spec_int_literal_value(g) < i64::MIN);
                    }
                    None
                } else if mag == 9223372036854775808u64 {
                    proof {
                        assert(spec_int_literal_value(g) == i64::MIN);
                    }
                    Some(i64::MIN)
                } else {
                    proof {
                        assert(spec_int_literal_value(g) == -(mag as int));
                    }
                    Some(-(mag as i64))
                }
            } else {
                if mag > 9223372036854775807u64 {
                    proof {
                        assert(spec_int_literal_value(g) > i64::MAX);
                    }
                    None
                } else {
                    Some(mag as i64)
                }
            }
        },
        None => {
            proof {
                if spec_int_literal_valid(g) {
                    assert(d.len() > 0 && all_digits(d));
                    if digits_val(d) <= u64::MAX {
                        assert(spec_parse_u64(d) is Some);
                        assert(false);
                    }
                    if !spec_is_neg(g) {
                        assert(spec_int_literal_value(g) > i64::MAX);
                    } else {
                        assert(spec_int_literal_value(g) < i64::MIN);
                    }
                }
            }
            None
        },
    }
}

} // verus!
