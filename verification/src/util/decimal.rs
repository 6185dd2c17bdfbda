//! Fixed-point decimal numbers: prices and sizes are held as whole counts of
//! 10^-8 units, written with eight decimals and read from exchange text.
use vstd::prelude::*;
use vstd::string::StringSliceAdditionalSpecFns;
use vstd::utf8::{encode_utf8, is_ascii_chars, is_ascii_chars_encode_utf8};

use crate::bindings::string_from_ascii;

verus! {

/// Number of units in one whole: amounts carry eight decimals.
pub const UNITS_PER_WHOLE: u64 = 100_000_000;

/// The ASCII byte of the decimal digit `d`.
pub open spec fn digit_byte(d: nat) -> u8 {
    (d + 48) as u8
}

/// Whether `b` is an ASCII decimal digit.
pub open spec fn is_digit(b: u8) -> bool {
    48 <= b <= 57
}

/// Whether every byte of `t` is an ASCII decimal digit.
pub open spec fn all_digits(t: Seq<u8>) -> bool {
    forall|i: int| 0 <= i < t.len() ==> is_digit(#[trigger] t[i])
}

/// Whether every byte of `t` is ASCII.
pub open spec fn all_ascii(t: Seq<u8>) -> bool {
    forall|i: int| 0 <= i < t.len() ==> #[trigger] t[i] < 128
}

/// The characters of an ASCII byte sequence.
pub open spec fn ascii_chars(t: Seq<u8>) -> Seq<char> {
    t.map_values(|b: u8| b as char)
}

/// The shortest decimal writing of `n` (no sign, no leading zeros, "0" for zero).
pub open spec fn decimal_bytes(n: nat) -> Seq<u8>
    decreases n,
{
    if n < 10 {
        seq![digit_byte(n)]
    } else {
        decimal_bytes(n / 10).push(digit_byte(n % 10))
    }
}

/// The last `w` decimal digits of `n`, zero-padded on the left.
pub open spec fn fixed_width_digits(n: nat, w: nat) -> Seq<u8>
    decreases w,
{
    if w == 0 {
        seq![]
    } else {
        fixed_width_digits(n / 10, (w - 1) as nat).push(digit_byte(n % 10))
    }
}

/// `v` units written as a decimal with exactly eight places, as `{:.8}` writes it:
/// whole part, a dot, then the eight digits of the fraction.
pub open spec fn fixed8_bytes(v: nat) -> Seq<u8> {
    decimal_bytes(v / 100_000_000) + seq![46u8] + fixed_width_digits(v % 100_000_000, 8)
}

/// Ten to the power `k`.
pub open spec fn pow10(k: nat) -> nat
    decreases k,
{
    if k == 0 {
        1
    } else {
        10 * pow10((k - 1) as nat)
    }
}

/// The number written by a sequence of decimal digits (0 for the empty sequence).
pub open spec fn digits_value(t: Seq<u8>) -> nat
    decreases t.len(),
{
    if t.len() == 0 {
        0
    } else {
        digits_value(t.drop_last()) * 10 + (t.last() - 48) as nat
    }
}

/// Index of the first dot in `s`, or the length of `s` when there is none.
pub open spec fn first_dot(s: Seq<u8>) -> nat
    decreases s.len(),
{
    if s.len() == 0 {
        0
    } else if s[0] == 46u8 {
        0
    } else {
        1 + first_dot(s.drop_first())
    }
}

/// The part of `s` before its first dot.
pub open spec fn whole_part(s: Seq<u8>) -> Seq<u8> {
    s.take(first_dot(s) as int)
}

/// The part of `s` after its first dot (empty when there is no dot).
pub open spec fn fraction_part(s: Seq<u8>) -> Seq<u8> {
    if first_dot(s) < s.len() {
        s.skip(first_dot(s) as int + 1)
    } else {
        seq![]
    }
}

/// Whether `b` marks an exponent: `e` or `E`.
pub open spec fn is_exp_mark(b: u8) -> bool {
    b == 101u8 || b == 69u8
}

/// Index of the first exponent mark in `s`, or the length of `s` when there is none.
pub open spec fn first_exp(s: Seq<u8>) -> nat
    decreases s.len(),
{
    if s.len() == 0 {
        0
    } else if is_exp_mark(s[0]) {
        0
    } else {
        1 + first_exp(s.drop_first())
    }
}

/// Whether `s` starts with a minus sign.
pub open spec fn is_negative(s: Seq<u8>) -> bool {
    s.len() > 0 && s[0] == 45u8
}

/// The length of the sign `s` starts with: 1 for `+` or `-`, else 0.
pub open spec fn sign_len(s: Seq<u8>) -> nat {
    if s.len() > 0 && (s[0] == 43u8 || s[0] == 45u8) {
        1
    } else {
        0
    }
}

/// `s` without its sign.
pub open spec fn unsigned_part(s: Seq<u8>) -> Seq<u8> {
    s.skip(sign_len(s) as int)
}

/// The digits and dot of a number text: the unsigned part up to its exponent mark.
pub open spec fn mantissa(s: Seq<u8>) -> Seq<u8> {
    unsigned_part(s).take(first_exp(unsigned_part(s)) as int)
}

/// Whether a number text has an exponent.
pub open spec fn has_exponent(s: Seq<u8>) -> bool {
    first_exp(unsigned_part(s)) < unsigned_part(s).len()
}

/// The text after the exponent mark (empty when there is none).
pub open spec fn exponent_text(s: Seq<u8>) -> Seq<u8> {
    if has_exponent(s) {
        unsigned_part(s).skip(first_exp(unsigned_part(s)) as int + 1)
    } else {
        seq![]
    }
}

/// The digits of an exponent text, after its sign.
pub open spec fn exponent_digits(e: Seq<u8>) -> Seq<u8> {
    e.skip(sign_len(e) as int)
}

/// The value of an exponent text: its digits, negated after a minus sign.
pub open spec fn exponent_value(e: Seq<u8>) -> int {
    if is_negative(e) {
        -(digits_value(exponent_digits(e)) as int)
    } else {
        digits_value(exponent_digits(e)) as int
    }
}

/// Whether `s` is a number as `f64` parsing reads it, apart from `inf` and
/// `nan`: an optional sign; digits with at most one dot and at least one
/// digit; optionally `e` or `E`, an optional sign and at least one digit.
pub open spec fn is_number_text(s: Seq<u8>) -> bool {
    let m = mantissa(s);
    &&& all_digits(whole_part(m))
    &&& all_digits(fraction_part(m))
    &&& whole_part(m).len() + fraction_part(m).len() > 0
    &&& (has_exponent(s) ==> exponent_digits(exponent_text(s)).len() > 0 && all_digits(
        exponent_digits(exponent_text(s)),
    ))
}

/// All digits of a number text, whole part then fraction.
pub open spec fn number_digits(s: Seq<u8>) -> Seq<u8> {
    whole_part(mantissa(s)) + fraction_part(mantissa(s))
}

/// How many of the number's digits stand before the point of 10^-8 units:
/// the whole digits, moved by the exponent, plus eight.
pub open spec fn units_shift(s: Seq<u8>) -> int {
    whole_part(mantissa(s)).len() + (if has_exponent(s) {
        exponent_value(exponent_text(s))
    } else {
        0
    }) + 8
}

/// The whole count of units of the digits `d` whose first `q` digits stand
/// before the units point, rounded half up: zero when `q` is negative, the
/// digits followed by zeros when `q` reaches past them, otherwise the first
/// `q` digits, plus one when the next digit is 5 or more.
pub open spec fn rounded_units(d: Seq<u8>, q: int) -> nat {
    if q < 0 {
        0
    } else if q >= d.len() {
        digits_value(d) * pow10((q - d.len()) as nat)
    } else {
        digits_value(d.take(q)) + (if d[q] >= 53u8 {
            1nat
        } else {
            0nat
        })
    }
}

/// What reading `s` as an amount gives: for a number text (see
/// `is_number_text`), its value in units rounded half up to 10^-8, when that
/// fits in a `u64` and the number is not below zero; nothing otherwise.
pub open spec fn parse_units_spec(s: Seq<u8>) -> Option<u64> {
    if !is_number_text(s) {
        None
    } else if is_negative(s) && digits_value(number_digits(s)) != 0 {
        None
    } else if rounded_units(number_digits(s), units_shift(s)) <= u64::MAX {
        Some(rounded_units(number_digits(s), units_shift(s)) as u64)
    } else {
        None
    }
}

pub proof fn lemma_decimal_bytes_digits(n: nat)
    ensures
        all_digits(decimal_bytes(n)),
        decimal_bytes(n).len() >= 1,
    decreases n,
{
    if n >= 10 {
        lemma_decimal_bytes_digits(n / 10);
        let p = decimal_bytes(n / 10);
        assert forall|i: int| 0 <= i < decimal_bytes(n).len() implies is_digit(
            #[trigger] decimal_bytes(n)[i],
        ) by {
            if i < p.len() {
                assert(decimal_bytes(n)[i] == p[i]);
            }
        }
    }
}

proof fn lemma_fixed_width_digits(n: nat, w: nat)
    ensures
        all_digits(fixed_width_digits(n, w)),
        fixed_width_digits(n, w).len() == w,
    decreases w,
{
    if w > 0 {
        lemma_fixed_width_digits(n / 10, (w - 1) as nat);
        let p = fixed_width_digits(n / 10, (w - 1) as nat);
        assert forall|i: int| 0 <= i < fixed_width_digits(n, w).len() implies is_digit(
            #[trigger] fixed_width_digits(n, w)[i],
        ) by {
            if i < p.len() {
                assert(fixed_width_digits(n, w)[i] == p[i]);
            }
        }
    }
}

/// The eight-place writing of an amount is ASCII: digits and one dot.
pub proof fn lemma_fixed8_ascii(v: nat)
    ensures
        all_ascii(fixed8_bytes(v)),
{
    lemma_decimal_bytes_digits(v / 100_000_000);
    lemma_fixed_width_digits(v % 100_000_000, 8);
}

/// Appends the shortest decimal writing of `n`.
pub fn push_decimal(out: &mut Vec<u8>, n: u64)
    ensures
        final(out)@ == old(out)@ + decimal_bytes(n as nat),
    decreases n,
{
    if n >= 10 {
        push_decimal(out, n / 10);
    }
    out.push((n % 10 + 48) as u8);
    proof {
        if n >= 10 {
            assert(decimal_bytes(n as nat) == decimal_bytes((n / 10) as nat).push(
                digit_byte((n % 10) as nat),
            ));
        }
    }
}

/// Appends the last `w` digits of `n`, zero-padded.
fn push_fixed_width(out: &mut Vec<u8>, n: u64, w: u64)
    ensures
        final(out)@ == old(out)@ + fixed_width_digits(n as nat, w as nat),
    decreases w,
{
    if w > 0 {
        push_fixed_width(out, n / 10, w - 1);
        out.push((n % 10 + 48) as u8);
    }
}

/// Writes `n` in decimal, as `n.to_string()` does for an unsigned integer.
pub fn format_decimal(n: u64) -> (s: String)
    ensures
        s@ == ascii_chars(decimal_bytes(n as nat)),
{
    let mut out: Vec<u8> = Vec::new();
    push_decimal(&mut out, n);
    proof {
        lemma_decimal_bytes_digits(n as nat);
        assert(out@ =~= decimal_bytes(n as nat));
    }
    string_from_ascii(out)
}

/// Appends the eight-place writing of `v` units.
pub fn push_fixed8(out: &mut Vec<u8>, v: u64)
    ensures
        final(out)@ == old(out)@ + fixed8_bytes(v as nat),
{
    push_decimal(out, v / UNITS_PER_WHOLE);
    out.push(46u8);
    push_fixed_width(out, v % UNITS_PER_WHOLE, 8);
    assert(final(out)@ =~= old(out)@ + fixed8_bytes(v as nat));
}

/// Writes `v` units with exactly eight decimals, as `format!("{:.8}", ..)` writes
/// the amount `v / 10^8`.
pub fn format_fixed8(v: u64) -> (s: String)
    ensures
        s@ == ascii_chars(fixed8_bytes(v as nat)),
{
    let mut out: Vec<u8> = Vec::new();
    push_fixed8(&mut out, v);
    proof {
        lemma_fixed8_ascii(v as nat);
        assert(out@ =~= fixed8_bytes(v as nat));
    }
    string_from_ascii(out)
}

proof fn lemma_first_dot_at(s: Seq<u8>, k: int)
    requires
        0 <= k <= s.len(),
        forall|j: int| 0 <= j < k ==> s[j] != 46u8,
        k < s.len() ==> s[k] == 46u8,
    ensures
        first_dot(s) == k,
    decreases s.len(),
{
    if s.len() > 0 && k > 0 {
        lemma_first_dot_at(s.drop_first(), k - 1);
    }
}

proof fn lemma_digits_value_step(t: Seq<u8>, i: int)
    requires
        0 <= i < t.len(),
    ensures
        digits_value(t.take(i + 1)) == digits_value(t.take(i)) * 10 + (t[i] - 48) as nat,
{
    assert(t.take(i + 1).drop_last() =~= t.take(i));
}

proof fn lemma_digits_value_monotone(t: Seq<u8>, i: int)
    requires
        0 <= i <= t.len(),
        all_digits(t),
    ensures
        digits_value(t.take(i)) <= digits_value(t),
    decreases t.len() - i,
{
    if i < t.len() {
        lemma_digits_value_step(t, i);
        lemma_digits_value_monotone(t, i + 1);
    } else {
        assert(t.take(i) =~= t);
    }
}

proof fn lemma_pow10_bound(k: nat)
    requires
        k <= 8,
    ensures
        1 <= pow10(k) <= 100_000_000,
        pow10(k) * pow10((8 - k) as nat) == 100_000_000,
        pow10(0) == 1,
        pow10(8) == 100_000_000,
    decreases k,
{
    assert(pow10(0) == 1);
    assert(pow10(1) == 10);
    assert(pow10(2) == 100);
    assert(pow10(3) == 1000);
    assert(pow10(4) == 10000);
    assert(pow10(5) == 100000);
    assert(pow10(6) == 1000000);
    assert(pow10(7) == 10000000);
    assert(pow10(8) == 100000000);
    if k == 0 {
    } else if k == 1 {
    } else if k == 2 {
    } else if k == 3 {
    } else if k == 4 {
    } else if k == 5 {
    } else if k == 6 {
    } else if k == 7 {
    } else {
        assert(k == 8);
    }
}

proof fn lemma_first_exp_at(s: Seq<u8>, k: int)
    requires
        0 <= k <= s.len(),
        forall|j: int| 0 <= j < k ==> !is_exp_mark(#[trigger] s[j]),
        k < s.len() ==> is_exp_mark(s[k]),
    ensures
        first_exp(s) == k,
    decreases s.len(),
{
    if s.len() > 0 && k > 0 {
        assert forall|j: int| 0 <= j < k - 1 implies !is_exp_mark(#[trigger] s.drop_first()[j]) by {
            assert(s.drop_first()[j] == s[j + 1]);
        }
        lemma_first_exp_at(s.drop_first(), k - 1);
    }
}

proof fn lemma_pow10_pos(k: nat)
    ensures
        pow10(k) >= 1,
    decreases k,
{
    if k > 0 {
        lemma_pow10_pos((k - 1) as nat);
    }
}

proof fn lemma_pow10_mono(a: nat, b: nat)
    requires
        a <= b,
    ensures
        pow10(a) <= pow10(b),
    decreases b,
{
    if a < b {
        lemma_pow10_mono(a, (b - 1) as nat);
        lemma_pow10_pos((b - 1) as nat);
    }
}

proof fn lemma_pow10_20()
    ensures
        pow10(20) > u64::MAX,
{
    reveal_with_fuel(pow10, 21);
}

/// A value of at least one, moved 20 or more places, does not fit in a `u64`.
proof fn lemma_too_large(v: nat, k: nat)
    requires
        v >= 1,
        k >= 20,
    ensures
        v * pow10(k) > u64::MAX,
{
    lemma_pow10_20();
    lemma_pow10_mono(20, k);
    let p = pow10(k);
    assert(v * p >= p) by (nonlinear_arith)
        requires
            v >= 1,
            p >= 0,
    ;
}

/// Digits that are all `0` stand for zero, and so do their first `i`.
proof fn lemma_zero_digits(d: Seq<u8>, i: int)
    requires
        forall|j: int| 0 <= j < d.len() ==> #[trigger] d[j] == 48u8,
        0 <= i <= d.len(),
    ensures
        digits_value(d.take(i)) == 0,
    decreases i,
{
    if i > 0 {
        lemma_zero_digits(d, i - 1);
        lemma_digits_value_step(d, i - 1);
    }
}

/// Digits with a nonzero digit stand for at least one.
proof fn lemma_nonzero_digits(d: Seq<u8>, i: int)
    requires
        all_digits(d),
        0 <= i < d.len(),
        d[i] != 48u8,
    ensures
        digits_value(d) >= 1,
{
    lemma_digits_value_step(d, i);
    lemma_digits_value_monotone(d, i + 1);
}

/// Appends the digits `b[from..to]` to `out`; false when one of them is not a digit.
fn read_digits(b: &[u8], from: usize, to: usize, out: &mut Vec<u8>) -> (ok: bool)
    requires
        from <= to <= b@.len(),
    ensures
        ok == all_digits(b@.subrange(from as int, to as int)),
        ok ==> final(out)@ == old(out)@ + b@.subrange(from as int, to as int),
{
    let mut i = from;
    while i < to
        invariant
            from <= i <= to <= b@.len(),
            all_digits(b@.subrange(from as int, i as int)),
            out@ == old(out)@ + b@.subrange(from as int, i as int),
        decreases to - i,
    {
        let c = b[i];
        if c < 48 || c > 57 {
            assert(b@.subrange(from as int, to as int)[i - from] == c);
            return false;
        }
        out.push(c);
        i = i + 1;
        assert(out@ =~= old(out)@ + b@.subrange(from as int, i as int));
        assert forall|j: int| 0 <= j < i - from implies is_digit(
            #[trigger] b@.subrange(from as int, i as int)[j],
        ) by {
            if j < i - 1 - from {
                assert(b@.subrange(from as int, i as int)[j] == b@.subrange(
                    from as int,
                    (i - 1) as int,
                )[j]);
            }
        }
    }
    true
}

/// Upper bound past which an exponent is only told apart by its sign.
const EXP_CAP: u128 = 36_893_488_147_419_103_232;

/// Reads the digits `b[from..to]` of an exponent: `None` when one is not a
/// digit, else `(big, x)` with `x` their value when it is at most `EXP_CAP`
/// and `big` when it is more.
fn read_exponent_digits(b: &[u8], from: usize, to: usize) -> (r: Option<(bool, u128)>)
    requires
        from <= to <= b@.len(),
    ensures
        r is None <==> !all_digits(b@.subrange(from as int, to as int)),
        r matches Some(p) ==> (if p.0 {
            digits_value(b@.subrange(from as int, to as int)) > EXP_CAP
        } else {
            p.1 == digits_value(b@.subrange(from as int, to as int)) && p.1 <= EXP_CAP
        }),
{
    let ghost t = b@.subrange(from as int, to as int);
    let mut i = from;
    let mut x: u128 = 0;
    let mut big = false;
    while i < to
        invariant
            from <= i <= to <= b@.len(),
            t == b@.subrange(from as int, to as int),
            all_digits(t.take(i - from)),
            big ==> digits_value(t.take(i - from)) > EXP_CAP,
            !big ==> x == digits_value(t.take(i - from)) && x <= EXP_CAP,
        decreases to - i,
    {
        let c = b[i];
        assert(t[i - from] == c);
        if c < 48 || c > 57 {
            return None;
        }
        proof {
            lemma_digits_value_step(t, i - from);
            assert forall|j: int| 0 <= j < i + 1 - from implies is_digit(#[trigger] t.take(i + 1 - from)[j]) by {
                if j < i - from {
                    assert(t.take(i + 1 - from)[j] == t.take(i - from)[j]);
                }
            }
        }
        if !big {
            let nx = x * 10 + (c - 48) as u128;
            if nx > EXP_CAP {
                big = true;
            } else {
                x = nx;
            }
        } else {
            proof {
                assert(digits_value(t.take(i + 1 - from)) >= digits_value(t.take(i - from))) by (nonlinear_arith)
                    requires
                        digits_value(t.take(i + 1 - from)) == digits_value(t.take(i - from)) * 10 + (t[i - from] - 48) as nat,
                ;
            }
        }
        i = i + 1;
    }
    assert(t.take(to - from) =~= t);
    Some((big, x))
}

/// The units of the digits `d` (at least one) with the first `q` before the
/// units point (see `rounded_units`), when they fit in a `u64`.
fn units_from_digits(d: &Vec<u8>, q: i128) -> (res: Option<u64>)
    requires
        all_digits(d@),
        digits_value(d@) >= 1,
    ensures
        res == (if rounded_units(d@, q as int) <= u64::MAX {
            Some(rounded_units(d@, q as int) as u64)
        } else {
            None
        }),
{
    let len = d.len();
    if q < 0 {
        return Some(0);
    }
    let upto: usize = if q >= len as i128 { len } else { q as usize };
    let mut acc: u128 = 0;
    let mut i: usize = 0;
    while i < upto
        invariant
            upto <= len == d@.len(),
            all_digits(d@),
            i <= upto,
            q >= 0,
            q >= len as i128 ==> upto == len,
            q < len as i128 ==> upto as int == q as int,
            acc == digits_value(d@.take(i as int)),
            acc <= u64::MAX,
        decreases upto - i,
    {
        proof {
            lemma_digits_value_step(d@, i as int);
        }
        acc = acc * 10 + (d[i] - 48) as u128;
        i = i + 1;
        if acc > u64::MAX as u128 {
            proof {
                lemma_digits_value_monotone(d@, i as int);
                if q >= len {
                    let k = (q - len) as nat;
                    lemma_pow10_pos(k);
                    let v = digits_value(d@);
                    assert(v * pow10(k) >= v) by (nonlinear_arith)
                        requires
                            pow10(k) >= 1,
                    ;
                } else {
                    let dq = d@.take(q as int);
                    assert(dq.take(i as int) =~= d@.take(i as int));
                    assert forall|j: int| 0 <= j < dq.len() implies is_digit(#[trigger] dq[j]) by {
                        assert(dq[j] == d@[j]);
                    }
                    lemma_digits_value_monotone(dq, i as int);
                }
            }
            return None;
        }
    }
    if q >= len as i128 {
        assert(d@.take(len as int) =~= d@);
        let k = q - len as i128;
        if k >= 20 {
            proof {
                lemma_too_large(digits_value(d@), k as nat);
            }
            return None;
        }
        let mut r: u128 = acc;
        let mut j: i128 = 0;
        proof {
            assert(pow10(0) == 1);
            assert(acc * pow10(0) == acc) by (nonlinear_arith)
                requires
                    pow10(0) == 1,
            ;
        }
        while j < k
            invariant
                0 <= j <= k < 20,
                k == q - len as i128,
                len == d@.len(),
                acc == digits_value(d@),
                r == acc * pow10(j as nat),
                r <= u64::MAX,
            decreases k - j,
        {
            proof {
                assert(pow10((j + 1) as nat) == 10 * pow10(j as nat));
                assert(r * 10 == acc * pow10((j + 1) as nat)) by (nonlinear_arith)
                    requires
                        r == acc * pow10(j as nat),
                        pow10((j + 1) as nat) == 10 * pow10(j as nat),
                ;
            }
            r = r * 10;
            j = j + 1;
            if r > u64::MAX as u128 {
                proof {
                    lemma_pow10_mono(j as nat, k as nat);
                    let a = acc as nat;
                    assert(a * pow10(k as nat) >= a * pow10(j as nat)) by (nonlinear_arith)
                        requires
                            pow10(j as nat) <= pow10(k as nat),
                    ;
                }
                return None;
            }
        }
        Some(r as u64)
    } else {
        let qq = q as usize;
        if d[qq] >= 53 {
            if acc == u64::MAX as u128 {
                return None;
            }
            Some((acc + 1) as u64)
        } else {
            Some(acc as u64)
        }
    }
}

/// Digits that are all `0` make zero units wherever the units point stands.
proof fn lemma_zero_units(d: Seq<u8>, q: int)
    requires
        forall|j: int| 0 <= j < d.len() ==> #[trigger] d[j] == 48u8,
    ensures
        rounded_units(d, q) == 0,
        digits_value(d) == 0,
{
    lemma_zero_digits(d, d.len() as int);
    assert(d.take(d.len() as int) =~= d);
    if 0 <= q < d.len() {
        lemma_zero_digits(d, q);
        assert(d[q] == 48u8);
    } else if q >= d.len() {
        let p = pow10((q - d.len()) as nat);
        assert(0 * p == 0) by (nonlinear_arith);
    }
}

/// Digits standing for at least one, moved 20 places or more past the units
/// point, make too many units for a `u64`.
proof fn lemma_far_past(d: Seq<u8>, q: int)
    requires
        digits_value(d) >= 1,
        q - d.len() >= 20,
    ensures
        rounded_units(d, q) > u64::MAX,
{
    lemma_too_large(digits_value(d), (q - d.len()) as nat);
}

/// Where the parts of a number text lie: the end of its sign, its exponent
/// mark (or its length) and its dot (or the exponent mark).
fn number_layout(b: &[u8]) -> (r: (usize, usize, usize))
    ensures
        r.0 == sign_len(b@),
        r.0 <= r.2 <= r.1 <= b@.len(),
        mantissa(b@) == b@.subrange(r.0 as int, r.1 as int),
        has_exponent(b@) <==> r.1 < b@.len(),
        has_exponent(b@) ==> exponent_text(b@) == b@.subrange(r.1 + 1, b@.len() as int),
        whole_part(mantissa(b@)) == b@.subrange(r.0 as int, r.2 as int),
        fraction_part(mantissa(b@)) == (if r.2 < r.1 {
            b@.subrange(r.2 + 1, r.1 as int)
        } else {
            Seq::<u8>::empty()
        }),
{
    let n = b.len();
    let ghost t = b@;
    let start: usize = if n > 0 && (b[0] == 43u8 || b[0] == 45u8) {
        1
    } else {
        0
    };
    let ghost u = unsigned_part(t);
    assert(u =~= t.subrange(start as int, n as int));
    let mut e: usize = start;
    while e < n && !(b[e] == 101u8 || b[e] == 69u8)
        invariant
            n == b@.len(),
            start <= e <= n,
            forall|j: int| start <= j < e ==> !is_exp_mark(#[trigger] b@[j]),
        decreases n - e,
    {
        e = e + 1;
    }
    proof {
        assert forall|j: int| 0 <= j < e - start implies !is_exp_mark(#[trigger] u[j]) by {
            assert(u[j] == t[j + start]);
        }
        if e < n {
            assert(u[e - start] == t[e as int]);
        }
        lemma_first_exp_at(u, e - start);
    }
    let ghost m = mantissa(t);
    assert(m =~= t.subrange(start as int, e as int));
    if e < n {
        assert(exponent_text(t) =~= t.subrange(e + 1, n as int));
    }
    let mut k: usize = start;
    while k < e && b[k] != 46u8
        invariant
            n == b@.len(),
            start <= k <= e <= n,
            forall|j: int| start <= j < k ==> #[trigger] b@[j] != 46u8,
        decreases e - k,
    {
        k = k + 1;
    }
    proof {
        assert forall|j: int| 0 <= j < k - start implies #[trigger] m[j] != 46u8 by {
            assert(m[j] == t[j + start]);
        }
        if k < e {
            assert(m[k - start] == t[k as int]);
        }
        lemma_first_dot_at(m, k - start);
    }
    assert(whole_part(m) =~= t.subrange(start as int, k as int));
    if k < e {
        assert(fraction_part(m) =~= t.subrange(k + 1, e as int));
    } else {
        assert(fraction_part(m) =~= Seq::<u8>::empty());
    }
    (start, e, k)
}

/// Reads the exponent after the mark at `e`: `None` when it is not an
/// optional sign followed by digits, else whether it is negative, whether its
/// digits stand for more than `EXP_CAP`, and otherwise their value.
fn read_exponent(b: &[u8], e: usize) -> (r: Option<(bool, bool, u128)>)
    requires
        e < b@.len(),
    ensures
        ({
            let et = b@.subrange(e + 1, b@.len() as int);
            &&& r is None <==> !(exponent_digits(et).len() > 0 && all_digits(exponent_digits(et)))
            &&& r matches Some(x) ==> x.0 == is_negative(et) && (x.1 ==> digits_value(
                exponent_digits(et),
            ) > EXP_CAP) && (!x.1 ==> x.2 == digits_value(exponent_digits(et)) && x.2 <= EXP_CAP)
        }),
{
    let n = b.len();
    let ghost et = b@.subrange(e + 1, n as int);
    let mut p = e + 1;
    let mut xneg = false;
    if p < n && (b[p] == 43u8 || b[p] == 45u8) {
        xneg = b[p] == 45u8;
        p = p + 1;
    }
    assert(exponent_digits(et) =~= b@.subrange(p as int, n as int));
    if p == n {
        return None;
    }
    match read_exponent_digits(b, p, n) {
        None => None,
        Some((big, x)) => Some((xneg, big, x)),
    }
}

/// Reads an amount as `f64` parsing reads a number text (an optional sign,
/// digits with at most one dot, an optional exponent), in units of 10^-8
/// rounded half up (see `parse_units_spec`); `None` for any other text, for a
/// value below zero and for one too large for a `u64` count of units.
pub fn parse_units(s: &str) -> (res: Option<u64>)
    ensures
        res == parse_units_spec(s.spec_bytes()),
{
    let b = s.as_bytes();
    let n = b.len();
    let ghost t = s.spec_bytes();
    assert(b@ == t);
    let (start, e, k) = number_layout(b);
    let mut digits: Vec<u8> = Vec::new();
    if !read_digits(b, start, k, &mut digits) {
        return None;
    }
    if k < e {
        if !read_digits(b, k + 1, e, &mut digits) {
            return None;
        }
    }
    assert(digits@ =~= number_digits(t));
    if digits.len() == 0 {
        return None;
    }
    let wlen = k - start;
    let mut big = false;
    let mut xneg = false;
    let mut xabs: u128 = 0;
    if e < n {
        match read_exponent(b, e) {
            None => {
                return None;
            },
            Some((ng, bg, x)) => {
                xneg = ng;
                big = bg;
                xabs = x;
            },
        }
    }
    assert(is_number_text(t));
    let neg = n > 0 && b[0] == 45u8;
    assert(neg == is_negative(t));
    let mut nz: usize = 0;
    while nz < digits.len() && digits[nz] == 48u8
        invariant
            nz <= digits@.len(),
            forall|j: int| 0 <= j < nz ==> #[trigger] digits@[j] == 48u8,
        decreases digits@.len() - nz,
    {
        nz = nz + 1;
    }
    if nz == digits.len() {
        proof {
            lemma_zero_units(digits@, units_shift(t));
        }
        return Some(0);
    }
    proof {
        lemma_nonzero_digits(digits@, nz as int);
    }
    if neg {
        return None;
    }
    if big {
        if xneg {
            assert(units_shift(t) < 0);
            return Some(0);
        } else {
            proof {
                lemma_far_past(digits@, units_shift(t));
            }
            return None;
        }
    }
    let x: i128 = if xneg {
        -(xabs as i128)
    } else {
        xabs as i128
    };
    let q: i128 = wlen as i128 + x + 8;
    assert(q == units_shift(t));
    units_from_digits(&digits, q)
}

/// The decimal writing of a signed integer: a minus sign before negative values.
pub open spec fn signed_decimal_bytes(v: int) -> Seq<u8> {
    if v < 0 {
        seq![45u8] + decimal_bytes((-v) as nat)
    } else {
        decimal_bytes(v as nat)
    }
}

/// Writes `v` in decimal, as `v.to_string()` does for a signed integer.
pub fn format_i64(v: i64) -> (s: String)
    ensures
        s@ == ascii_chars(signed_decimal_bytes(v as int)),
{
    let mut out: Vec<u8> = Vec::new();
    let mag: u64 = if v < 0 {
        out.push(45u8);
        if v == i64::MIN {
            9_223_372_036_854_775_808u64
        } else {
            (-v) as u64
        }
    } else {
        v as u64
    };
    push_decimal(&mut out, mag);
    proof {
        lemma_decimal_bytes_digits(mag as nat);
        assert(out@ =~= signed_decimal_bytes(v as int));
        assert(all_ascii(out@)) by {
            assert forall|i: int| 0 <= i < out@.len() implies #[trigger] out@[i] < 128 by {
                if v < 0 && i > 0 {
                    assert(out@[i] == decimal_bytes(mag as nat)[i - 1]);
                } else if v >= 0 {
                    assert(out@[i] == decimal_bytes(mag as nat)[i]);
                }
            }
        }
    }
    string_from_ascii(out)
}

/// The digits of an integer's text, after an optional sign.
pub open spec fn signed_digits(s: Seq<u8>) -> Seq<u8> {
    if s.len() > 0 && (s[0] == 45u8 || s[0] == 43u8) {
        s.drop_first()
    } else {
        s
    }
}

/// What reading `s` as an `i64` gives, as `str::parse::<i64>` reads it: an
/// optional `+` or `-`, then one or more decimal digits, the value in range.
pub open spec fn parse_i64_spec(s: Seq<u8>) -> Option<i64> {
    let d = signed_digits(s);
    let v: int = if s.len() > 0 && s[0] == 45u8 {
        -(digits_value(d) as int)
    } else {
        digits_value(d) as int
    };
    if d.len() > 0 && all_digits(d) && i64::MIN <= v <= i64::MAX {
        Some(v as i64)
    } else {
        None
    }
}

/// Reads a signed decimal integer (see `parse_i64_spec`).
pub fn parse_i64(s: &str) -> (res: Option<i64>)
    ensures
        res == parse_i64_spec(s.spec_bytes()),
{
    let b = s.as_bytes();
    let n = b.len();
    let ghost t = s.spec_bytes();
    assert(b@ == t);
    let neg = n > 0 && b[0] == 45u8;
    let start: usize = if n > 0 && (b[0] == 45u8 || b[0] == 43u8) { 1 } else { 0 };
    let ghost d = signed_digits(t);
    assert(d =~= t.skip(start as int));
    if start == n {
        return None;
    }
    let mut acc: u128 = 0;
    let mut i: usize = start;
    while i < n
        invariant
            n == b@.len(),
            b@ == t,
            t == s.spec_bytes(),
            d == t.skip(start as int),
            d == signed_digits(t),
            start <= i <= n,
            all_digits(d.take(i - start)),
            acc == digits_value(d.take(i - start)),
            acc <= 9_223_372_036_854_775_808u128,
        decreases n - i,
    {
        let c = b[i];
        let ghost k = i - start;
        if c < 48 || c > 57 {
            proof {
                assert(d[k as int] == c);
                assert(!is_digit(d[k as int]));
            }
            return None;
        }
        proof {
            lemma_digits_value_step(d, k as int);
            assert forall|q: int| 0 <= q < k + 1 implies is_digit(#[trigger] d.take(k + 1)[q]) by {
                if q < k {
                    assert(d.take(k + 1)[q] == d.take(k as int)[q]);
                }
            }
        }
        acc = acc * 10 + (c - 48) as u128;
        i = i + 1;
        if acc > 9_223_372_036_854_775_808u128 {
            proof {
                assert(acc == digits_value(d.take(i - start)));
                if all_digits(d) {
                    lemma_digits_value_monotone(d, (i - start) as int);
                }
            }
            return None;
        }
    }
    assert(d.take((n - start) as int) =~= d);
    if neg {
        if acc == 9_223_372_036_854_775_808u128 {
            Some(i64::MIN)
        } else {
            Some(-(acc as i64))
        }
    } else {
        if acc > 9_223_372_036_854_775_807u128 {
            None
        } else {
            Some(acc as i64)
        }
    }
}


pub proof fn lemma_digits_value_decimal(n: nat)
    ensures
        digits_value(decimal_bytes(n)) == n,
    decreases n,
{
    let d = decimal_bytes(n);
    assert(digits_value(d) == digits_value(d.drop_last()) * 10 + (d.last() - 48) as nat);
    if n >= 10 {
        lemma_digits_value_decimal(n / 10);
        assert(d.drop_last() =~= decimal_bytes(n / 10));
        assert(d.last() == digit_byte(n % 10));
        assert((digit_byte(n % 10) - 48) as nat == n % 10);
    } else {
        assert(d.drop_last() =~= Seq::<u8>::empty());
        assert((digit_byte(n) - 48) as nat == n);
    }
}

proof fn lemma_digits_value_fixed(n: nat, w: nat)
    requires
        n < pow10(w),
    ensures
        digits_value(fixed_width_digits(n, w)) == n,
    decreases w,
{
    if w > 0 {
        assert(n / 10 < pow10((w - 1) as nat));
        lemma_digits_value_fixed(n / 10, (w - 1) as nat);
        let d = fixed_width_digits(n, w);
        assert(d.drop_last() =~= fixed_width_digits(n / 10, (w - 1) as nat));
        assert((digit_byte(n % 10) - 48) as nat == n % 10);
    } else {
        assert(n == 0);
    }
}

proof fn lemma_digits_value_concat(a: Seq<u8>, b: Seq<u8>)
    ensures
        digits_value(a + b) == digits_value(a) * pow10(b.len()) + digits_value(b),
    decreases b.len(),
{
    if b.len() == 0 {
        assert(a + b =~= a);
        let v = digits_value(a);
        assert(v * pow10(0) == v) by (nonlinear_arith)
            requires
                pow10(0) == 1,
        ;
    } else {
        let b2 = b.drop_last();
        lemma_digits_value_concat(a, b2);
        assert((a + b).drop_last() =~= a + b2);
        assert((a + b).last() == b.last());
        let va = digits_value(a);
        let p2 = pow10(b2.len());
        let vb2 = digits_value(b2);
        let l = (b.last() - 48) as nat;
        assert(pow10(b.len()) == 10 * p2);
        assert((va * p2 + vb2) * 10 + l == va * (10 * p2) + (vb2 * 10 + l)) by (nonlinear_arith);
    }
}

/// ASCII bytes read as characters encode back to the same bytes.
pub proof fn lemma_ascii_roundtrip(b: Seq<u8>)
    requires
        all_ascii(b),
    ensures
        encode_utf8(ascii_chars(b)) == b,
{
    let c = ascii_chars(b);
    assert(is_ascii_chars(c)) by {
        assert forall|i: int| 0 <= i < c.len() implies '\0' <= #[trigger] c[i] <= '\u{7f}' by {
            assert(b[i] < 128);
        }
    }
    is_ascii_chars_encode_utf8(c);
    assert forall|i: int| 0 <= i < b.len() implies encode_utf8(c)[i] == b[i] by {
        assert(c[i] as u8 == encode_utf8(c)[i]);
        assert(b[i] < 128);
    }
    assert(encode_utf8(c) =~= b);
}

/// Digits are ASCII.
pub proof fn lemma_digits_ascii(t: Seq<u8>)
    requires
        all_digits(t),
    ensures
        all_ascii(t),
{
    assert forall|i: int| 0 <= i < t.len() implies #[trigger] t[i] < 128 by {
        assert(is_digit(t[i]));
    }
}

/// Amount law: reading back the eight-place writing of an amount gives the
/// amount.
pub proof fn lemma_fixed8_roundtrip(v: u64)
    ensures
        parse_units_spec(fixed8_bytes(v as nat)) == Some(v),
{
    let whole = (v / 100_000_000) as nat;
    let frac = (v % 100_000_000) as nat;
    let w = decimal_bytes(whole);
    let f = fixed_width_digits(frac, 8);
    let s = fixed8_bytes(v as nat);
    lemma_decimal_bytes_digits(whole);
    lemma_fixed_width_digits(frac, 8);
    assert(s =~= w + seq![46u8] + f);
    assert(is_digit(s[0]));
    assert(sign_len(s) == 0);
    assert(unsigned_part(s) =~= s);
    assert forall|j: int| 0 <= j < s.len() implies !is_exp_mark(#[trigger] s[j]) by {
        if j < w.len() {
            assert(s[j] == w[j]);
        } else if j > w.len() {
            assert(s[j] == f[j - w.len() - 1]);
        }
    }
    lemma_first_exp_at(s, s.len() as int);
    assert(mantissa(s) =~= s);
    assert forall|j: int| 0 <= j < w.len() implies #[trigger] s[j] != 46u8 by {
        assert(s[j] == w[j]);
        assert(is_digit(w[j]));
    }
    assert(s[w.len() as int] == 46u8);
    lemma_first_dot_at(s, w.len() as int);
    assert(whole_part(s) =~= w);
    assert(fraction_part(s) =~= f);
    assert(!has_exponent(s));
    assert(number_digits(s) == w + f);
    lemma_digits_value_decimal(whole);
    lemma_pow10_bound(8);
    lemma_digits_value_fixed(frac, 8);
    lemma_digits_value_concat(w, f);
    assert(digits_value(w + f) == whole * 100_000_000 + frac);
    assert(units_shift(s) == (w + f).len());
    let d = w + f;
    let dv = digits_value(d);
    assert(dv * pow10(0) == dv) by (nonlinear_arith)
        requires
            pow10(0) == 1,
    ;
    assert(rounded_units(d, d.len() as int) == dv);
    assert(dv == v);
}

/// Integer law: reading back the decimal writing of an `i64` gives it.
pub proof fn lemma_i64_roundtrip(v: i64)
    ensures
        parse_i64_spec(signed_decimal_bytes(v as int)) == Some(v),
{
    let s = signed_decimal_bytes(v as int);
    if v < 0 {
        let m = (-v) as nat;
        lemma_decimal_bytes_digits(m);
        lemma_digits_value_decimal(m);
        assert(s.drop_first() =~= decimal_bytes(m));
        assert(signed_digits(s) =~= decimal_bytes(m));
    } else {
        let m = v as nat;
        lemma_decimal_bytes_digits(m);
        lemma_digits_value_decimal(m);
        assert(is_digit(s[0]));
        assert(signed_digits(s) == s);
    }
}

} // verus!
