//! Decimal rendering and parsing for the edit pipeline's numbers.
//!
//! Rendering produces ASCII byte strings: the fixed-precision form an
//! edit buffer is seeded with, and the trimmed form display rows use.
//! Parsing reads the buffer back on commit, accepting an optional sign,
//! integer and fraction digits, and an optional exponent, and yields the
//! nearest representable [`Num`] (truncating toward zero past the ninth
//! decimal place, saturating at the representable bounds).

use vstd::prelude::*;
use crate::num::{Num, SCALE, VMAX};

verus! {

/// The ASCII digit for `d`.
pub open spec fn digit_byte(d: int) -> u8 {
    (48 + d) as u8
}

/// Decimal digits of `n`, most significant first.
pub open spec fn dec_bytes(n: nat) -> Seq<u8>
    decreases n,
{
    if n < 10 {
        seq![digit_byte(n as int)]
    } else {
        dec_bytes((n / 10) as nat) + seq![digit_byte((n % 10) as int)]
    }
}

/// Decimal digits of `n`, zero-padded on the left to exactly `width`.
pub open spec fn dec_bytes_pad(n: nat, width: nat) -> Seq<u8>
    decreases width,
{
    if width == 0 {
        Seq::empty()
    } else {
        dec_bytes_pad((n / 10) as nat, (width - 1) as nat) + seq![digit_byte((n % 10) as int)]
    }
}

/// Powers of ten.
pub open spec fn pow10(e: nat) -> int
    decreases e,
{
    if e == 0 {
        1
    } else {
        10 * pow10((e - 1) as nat)
    }
}

/// Drops trailing zero digits, keeping at least one digit.
pub open spec fn trim_zeros(s: Seq<u8>) -> Seq<u8>
    decreases s.len(),
{
    if s.len() <= 1 {
        s
    } else if s.last() == 48 {
        trim_zeros(s.drop_last())
    } else {
        s
    }
}

/// `pow10` grows monotonically and stays positive.
pub proof fn lemma_pow10_pos(e: nat)
    ensures
        pow10(e) >= 1,
    decreases e,
{
    if e > 0 {
        lemma_pow10_pos((e - 1) as nat);
    }
}

/// `pow10` is monotone in the exponent.
pub proof fn lemma_pow10_mono(a: nat, b: nat)
    requires
        a <= b,
    ensures
        pow10(a) <= pow10(b),
    decreases b,
{
    if a < b {
        lemma_pow10_mono(a, (b - 1) as nat);
        lemma_pow10_pos((b - 1) as nat);
    }
}

/// Computes a small power of ten.
pub fn pow10_u128(e: usize) -> (r: u128)
    requires
        e <= 30,
    ensures
        r as int == pow10(e as nat),
{
    proof {
        reveal_with_fuel(pow10, 32);
    }
    let mut r: u128 = 1;
    let mut i: usize = 0;
    while i < e
        invariant
            i <= e,
            e <= 30,
            r as int == pow10(i as nat),
        decreases e - i,
    {
        proof {
            lemma_pow10_mono(i as nat + 1, 30);
            assert(pow10(30) == 1000000000000000000000000000000) by {
                reveal_with_fuel(pow10, 32);
            }
        }
        r = r * 10;
        i = i + 1;
    }
    r
}

/// Appends the decimal digits of `n`.
pub fn push_dec(out: &mut Vec<u8>, n: u128)
    ensures
        final(out)@ == old(out)@ + dec_bytes(n as nat),
    decreases n,
{
    if n < 10 {
        out.push(48 + (n as u8));
        proof {
            assert(out@ =~= old(out)@ + dec_bytes(n as nat));
        }
    } else {
        let d: u128 = n % 10;
        push_dec(out, n / 10);
        out.push(48 + (d as u8));
        proof {
            assert(out@ =~= old(out)@ + dec_bytes(n as nat));
        }
    }
}

/// Appends the decimal digits of `n`, zero-padded to `width`.
pub fn push_dec_pad(out: &mut Vec<u8>, n: u128, width: usize)
    ensures
        final(out)@ == old(out)@ + dec_bytes_pad(n as nat, width as nat),
    decreases width,
{
    if width > 0 {
        let d: u128 = n % 10;
        push_dec_pad(out, n / 10, width - 1);
        out.push(48 + (d as u8));
        proof {
            assert(out@ =~= old(out)@ + dec_bytes_pad(n as nat, width as nat));
        }
    } else {
        proof {
            assert(out@ =~= old(out)@ + dec_bytes_pad(n as nat, 0));
        }
    }
}

/// Fixed-precision decimal rendering of the scaled value `v` with `p`
/// decimal places, rounded half away from zero at the last place.
/// Values carry nine decimal places, so places past the ninth are
/// zeros.
pub open spec fn fmt_fixed_spec(v: int, p: nat) -> Seq<u8> {
    let pe = if p <= 9 {
        p
    } else {
        9nat
    };
    let a = if v < 0 {
        -v
    } else {
        v
    };
    let q = (a + pow10((9 - pe) as nat) / 2) / pow10((9 - pe) as nat);
    let whole = q / pow10(pe);
    let frac = q % pow10(pe);
    let sign: Seq<u8> = if v < 0 {
        seq![45u8]
    } else {
        Seq::empty()
    };
    sign + dec_bytes(whole as nat) + if p == 0 {
        Seq::<u8>::empty()
    } else {
        seq![46u8] + dec_bytes_pad(frac as nat, pe) + dec_bytes_pad(0, (p - pe) as nat)
    }
}

/// Renders `n` with exactly `prec` decimal places, as an edit buffer is
/// seeded; places past the ninth are zeros.
pub fn format_fixed(n: Num, prec: usize) -> (r: Vec<u8>)
    requires
        n.wf(),
    ensures
        r@ == fmt_fixed_spec(n@, prec as nat),
{
    let pe: usize = if prec <= 9 {
        prec
    } else {
        9
    };
    let v = n.scaled();
    let neg = v < 0;
    let a: u128 = if neg {
        (-v) as u128
    } else {
        v as u128
    };
    let unit = pow10_u128(9 - pe);
    let scale_p = pow10_u128(pe);
    proof {
        lemma_pow10_pos((9 - pe as nat) as nat);
        lemma_pow10_pos(pe as nat);
        lemma_pow10_mono((9 - pe as nat) as nat, 30);
        lemma_pow10_mono(pe as nat, 30);
        assert(pow10(30) == 1000000000000000000000000000000) by {
            reveal_with_fuel(pow10, 32);
        }
    }
    let q = (a + unit / 2) / unit;
    let whole = q / scale_p;
    let frac = q % scale_p;
    let mut out: Vec<u8> = Vec::new();
    if neg {
        out.push(45);
    }
    let ghost pre = out@;
    push_dec(&mut out, whole);
    if prec > 0 {
        out.push(46);
        push_dec_pad(&mut out, frac, pe);
        push_dec_pad(&mut out, 0, prec - pe);
    }
    proof {
        assert(out@ =~= fmt_fixed_spec(n@, prec as nat));
    }
    out
}

/// Trimmed decimal rendering of the scaled value `v`: the whole part,
/// then the fraction digits with trailing zeros removed, always with at
/// least one fraction digit.
pub open spec fn fmt_trimmed_spec(v: int) -> Seq<u8> {
    let a = if v < 0 {
        -v
    } else {
        v
    };
    let whole = a / (SCALE as int);
    let frac = a % (SCALE as int);
    let sign: Seq<u8> = if v < 0 {
        seq![45u8]
    } else {
        Seq::empty()
    };
    sign + dec_bytes(whole as nat) + seq![46u8] + trim_zeros(dec_bytes_pad(frac as nat, 9))
}

/// Renders `n` the way a floating leaf is displayed: whole part, point,
/// fraction with trailing zeros trimmed.
pub fn format_trimmed(n: Num) -> (r: Vec<u8>)
    requires
        n.wf(),
    ensures
        r@ == fmt_trimmed_spec(n@),
{
    let v = n.scaled();
    let neg = v < 0;
    let a: u128 = if neg {
        (-v) as u128
    } else {
        v as u128
    };
    let whole = a / (SCALE as u128);
    let mut frac = a % (SCALE as u128);
    let mut width: usize = 9;
    proof {
        assert(pow10(9) == 1000000000) by {
            reveal_with_fuel(pow10, 11);
        }
        assert(trim_zeros(dec_bytes_pad(frac as nat, width as nat)) == trim_zeros(
            dec_bytes_pad(((a as int) % (SCALE as int)) as nat, 9),
        ));
    }
    while frac % 10 == 0 && width > 1
        invariant
            1 <= width <= 9,
            frac < pow10(width as nat),
            trim_zeros(dec_bytes_pad(frac as nat, width as nat)) == trim_zeros(
                dec_bytes_pad(((if n@ < 0 { -n@ } else { n@ }) % (SCALE as int)) as nat, 9),
            ),
        decreases width,
    {
        proof {
            lemma_trim_step(frac as nat, width as nat);
        }
        frac = frac / 10;
        width = width - 1;
        proof {
            lemma_pow10_pos(width as nat);
            assert(frac < pow10(width as nat)) by {
                assert((frac * 10 + 0) as int <= frac as int * 10 + 9);
            }
        }
    }
    proof {
        lemma_trim_done(frac as nat, width as nat);
    }
    let mut out: Vec<u8> = Vec::new();
    if neg {
        out.push(45);
    }
    push_dec(&mut out, whole);
    out.push(46);
    push_dec_pad(&mut out, frac, width);
    proof {
        assert(out@ =~= fmt_trimmed_spec(n@));
    }
    out
}

/// One trimming step: a trailing zero digit can be dropped.
proof fn lemma_trim_step(f: nat, w: nat)
    requires
        w > 1,
        f % 10 == 0,
    ensures
        trim_zeros(dec_bytes_pad(f, w)) == trim_zeros(dec_bytes_pad((f / 10) as nat, (w - 1) as nat)),
{
    let s = dec_bytes_pad(f, w);
    assert(s == dec_bytes_pad((f / 10) as nat, (w - 1) as nat) + seq![digit_byte((f % 10) as int)]);
    lemma_dec_bytes_pad_len((f / 10) as nat, (w - 1) as nat);
    assert(s.last() == 48);
    assert(s.drop_last() =~= dec_bytes_pad((f / 10) as nat, (w - 1) as nat));
}

/// When no trailing zero is left, trimming is the identity.
proof fn lemma_trim_done(f: nat, w: nat)
    requires
        w >= 1,
        f % 10 != 0 || w == 1,
    ensures
        trim_zeros(dec_bytes_pad(f, w)) == dec_bytes_pad(f, w),
{
    let s = dec_bytes_pad(f, w);
    lemma_dec_bytes_pad_len(f, w);
    if w == 1 {
    } else {
        assert(s.last() == digit_byte((f % 10) as int));
        assert(s.last() != 48);
    }
}

/// A padded rendering has exactly the requested width.
pub proof fn lemma_dec_bytes_pad_len(n: nat, width: nat)
    ensures
        dec_bytes_pad(n, width).len() == width,
    decreases width,
{
    if width > 0 {
        lemma_dec_bytes_pad_len((n / 10) as nat, (width - 1) as nat);
    }
}

/// Signed integer rendering: sign, then decimal digits.
pub open spec fn fmt_int_spec(v: int) -> Seq<u8> {
    if v < 0 {
        seq![45u8] + dec_bytes((-v) as nat)
    } else {
        dec_bytes(v as nat)
    }
}

/// Renders a signed machine integer in decimal.
pub fn format_i128(v: i128) -> (r: Vec<u8>)
    requires
        (i128::MIN as int) < v as int,
    ensures
        r@ == fmt_int_spec(v as int),
{
    let mut out: Vec<u8> = Vec::new();
    if v < 0 {
        out.push(45);
        push_dec(&mut out, (-v) as u128);
    } else {
        push_dec(&mut out, v as u128);
    }
    proof {
        assert(out@ =~= fmt_int_spec(v as int));
    }
    out
}

/// Renders an unsigned machine integer in decimal.
pub fn format_u128(v: u128) -> (r: Vec<u8>)
    ensures
        r@ == fmt_int_spec(v as int),
{
    let mut out: Vec<u8> = Vec::new();
    push_dec(&mut out, v);
    proof {
        assert(out@ =~= fmt_int_spec(v as int));
    }
    out
}


/// Whether `b` is an ASCII decimal digit.
pub open spec fn is_digit(b: u8) -> bool {
    48 <= b <= 57
}

/// Whether every byte of `s` is a decimal digit.
pub open spec fn all_digits(s: Seq<u8>) -> bool {
    forall|i: int| 0 <= i < s.len() ==> is_digit(s[i])
}

/// The integer a digit string denotes, most significant digit first.
pub open spec fn digits_val(s: Seq<u8>) -> int
    decreases s.len(),
{
    if s.len() == 0 {
        0
    } else {
        digits_val(s.drop_last()) * 10 + (s.last() - 48)
    }
}

/// Index of the first occurrence of `b1` or `b2`, or the length.
pub open spec fn find_byte2(s: Seq<u8>, b1: u8, b2: u8) -> int
    decreases s.len(),
{
    if s.len() == 0 {
        0
    } else if s[0] == b1 || s[0] == b2 {
        0
    } else {
        1 + find_byte2(s.subrange(1, s.len() as int), b1, b2)
    }
}

/// `find_byte2` finds the first occurrence, when one exists.
pub proof fn lemma_find_byte2(s: Seq<u8>, b1: u8, b2: u8)
    ensures
        0 <= find_byte2(s, b1, b2) <= s.len(),
        find_byte2(s, b1, b2) < s.len() ==> s[find_byte2(s, b1, b2)] == b1 || s[find_byte2(
            s,
            b1,
            b2,
        )] == b2,
        forall|j: int| 0 <= j < find_byte2(s, b1, b2) ==> s[j] != b1 && s[j] != b2,
    decreases s.len(),
{
    if s.len() > 0 && s[0] != b1 && s[0] != b2 {
        let sub = s.subrange(1, s.len() as int);
        lemma_find_byte2(sub, b1, b2);
        assert(forall|j: int| 1 <= j < s.len() ==> s[j] == #[trigger] sub[j - 1]);
        assert forall|j: int| 0 <= j < find_byte2(s, b1, b2) implies s[j] != b1 && s[j]
            != b2 by {
            if j >= 1 {
                assert(s[j] == sub[j - 1]);
            }
        }
    }
}

/// A digit string denotes a nonnegative number.
pub proof fn lemma_digits_val_nonneg(s: Seq<u8>)
    requires
        all_digits(s),
    ensures
        digits_val(s) >= 0,
    decreases s.len(),
{
    if s.len() > 0 {
        assert(all_digits(s.drop_last())) by {
            assert(forall|i: int|
                0 <= i < s.len() - 1 ==> s.drop_last()[i] == #[trigger] s[i]);
        }
        lemma_digits_val_nonneg(s.drop_last());
    }
}

/// A digit string denoting zero is all zero digits, and conversely.
pub proof fn lemma_digits_val_zero(s: Seq<u8>)
    requires
        all_digits(s),
    ensures
        digits_val(s) == 0 <==> forall|i: int| 0 <= i < s.len() ==> s[i] == 48,
    decreases s.len(),
{
    if s.len() > 0 {
        let dl = s.drop_last();
        assert(all_digits(dl)) by {
            assert(forall|i: int| 0 <= i < s.len() - 1 ==> dl[i] == #[trigger] s[i]);
        }
        lemma_digits_val_zero(dl);
        lemma_digits_val_nonneg(dl);
        assert(forall|i: int| 0 <= i < s.len() - 1 ==> #[trigger] s[i] == dl[i]);
    }
}

/// Every prefix of an all-zero digit string denotes zero.
pub proof fn lemma_digits_val_zero_prefix(s: Seq<u8>, k: int)
    requires
        all_digits(s),
        digits_val(s) == 0,
        0 <= k <= s.len(),
    ensures
        digits_val(s.subrange(0, k)) == 0,
{
    lemma_digits_val_zero(s);
    let p = s.subrange(0, k);
    assert(all_digits(p));
    assert(forall|i: int| 0 <= i < k ==> p[i] == #[trigger] s[i]);
    lemma_digits_val_zero(p);
}

/// The value of an exponent part: optional sign, then digits.
pub open spec fn parse_exp_spec(s: Seq<u8>) -> Option<int> {
    if s.len() == 0 {
        None
    } else {
        let neg = s[0] == 45;
        let r = if s[0] == 45 || s[0] == 43 {
            s.subrange(1, s.len() as int)
        } else {
            s
        };
        if r.len() > 0 && all_digits(r) {
            Some(
                if neg {
                    -digits_val(r)
                } else {
                    digits_val(r)
                },
            )
        } else {
            None
        }
    }
}

/// The nonnegative scaled value denoted by the digit string `d` times
/// ten to the `e`, truncated toward zero past the ninth decimal place
/// and saturated at `VMAX`.
pub open spec fn mag_spec(d: Seq<u8>, e: int) -> int {
    let shift = 9 + e;
    let scaled = if shift >= 0 {
        digits_val(d) * pow10(shift as nat)
    } else if d.len() + shift > 0 {
        digits_val(d.subrange(0, d.len() + shift))
    } else {
        0
    };
    if scaled > VMAX as int {
        VMAX as int
    } else {
        scaled
    }
}

/// The nonnegative scaled value an unsigned numeric literal denotes:
/// integer digits, optional point and fraction digits, optional
/// exponent.
pub open spec fn parse_mag_spec(s: Seq<u8>) -> Option<int> {
    let ei = find_byte2(s, 101, 69);
    let mant = s.subrange(0, ei);
    let eo: Option<int> = if ei == s.len() {
        Some(0)
    } else {
        parse_exp_spec(s.subrange(ei + 1, s.len() as int))
    };
    match eo {
        None => None,
        Some(e) => {
            let di = find_byte2(mant, 46, 46);
            let d1 = mant.subrange(0, di);
            let d2 = if di == mant.len() {
                Seq::<u8>::empty()
            } else {
                mant.subrange(di + 1, mant.len() as int)
            };
            if all_digits(d1) && all_digits(d2) && d1.len() + d2.len() > 0 {
                Some(mag_spec(d1 + d2, e - d2.len()))
            } else {
                None
            }
        },
    }
}

/// The scaled value a numeric literal denotes, or `None` when the bytes
/// are not a well-formed literal.
pub open spec fn parse_spec(s: Seq<u8>) -> Option<int> {
    if s.len() == 0 {
        None
    } else {
        let neg = s[0] == 45;
        let r = if s[0] == 45 || s[0] == 43 {
            s.subrange(1, s.len() as int)
        } else {
            s
        };
        match parse_mag_spec(r) {
            None => None,
            Some(m) => Some(
                if neg {
                    -m
                } else {
                    m
                },
            ),
        }
    }
}


/// Saturation bound for exponent accumulation, far beyond any exponent
/// that can matter for a representable value.
const EXP_CAP: i128 = 1_000_000_000_000_000_000_000_000_000_000;

/// Extending a digit prefix by one digit multiplies its value by ten and
/// adds the digit.
proof fn lemma_digits_step(s: Seq<u8>, j: int)
    requires
        0 <= j < s.len(),
    ensures
        digits_val(s.subrange(0, j + 1)) == digits_val(s.subrange(0, j)) * 10 + (s[j] - 48),
{
    let t = s.subrange(0, j + 1);
    assert(t.drop_last() =~= s.subrange(0, j));
    assert(t.last() == s[j]);
}

/// Shifting a positive product one more decimal place keeps it positive
/// and ties the two readings of the product together.
proof fn lemma_mul10(a: int, t: nat)
    ensures
        a * pow10((t + 1) as nat) == (a * pow10(t)) * 10,
{
    assert(pow10((t + 1) as nat) == 10 * pow10(t));
    assert(a * (10 * pow10(t)) == (a * pow10(t)) * 10) by (nonlinear_arith);
}

/// A nonzero digit string times a power of ten with at least 31 zeros
/// exceeds `VMAX`.
proof fn lemma_mag_overflows(d: Seq<u8>, sh: nat)
    requires
        all_digits(d),
        digits_val(d) != 0,
        sh >= 31,
    ensures
        digits_val(d) * pow10(sh) > VMAX as int,
{
    lemma_digits_val_nonneg(d);
    lemma_pow10_mono(31, sh);
    assert(pow10(31) == 10000000000000000000000000000000) by {
        reveal_with_fuel(pow10, 33);
    }
    vstd::arithmetic::mul::lemma_mul_inequality(1, digits_val(d), pow10(sh));
}

/// Validates that the byte range holds only digits and reports whether
/// they are all zero.
#[verifier::loop_isolation(false)]
fn scan_digits(bytes: &Vec<u8>, from: usize, to: usize) -> (r: (bool, bool))
    requires
        from <= to <= bytes@.len(),
    ensures
        ({
            let d = bytes@.subrange(from as int, to as int);
            &&& r.0 == all_digits(d)
            &&& (r.0 ==> (r.1 <==> forall|k: int| 0 <= k < d.len() ==> d[k] == 48))
        }),
{
    let ghost d = bytes@.subrange(from as int, to as int);
    let mut zero = true;
    let mut j = from;
    while j < to
        invariant
            from <= j <= to,
            forall|k: int| 0 <= k < j - from ==> is_digit(#[trigger] d[k]),
            zero <==> (forall|k: int| 0 <= k < j - from ==> #[trigger] d[k] == 48),
        decreases to - j,
    {
        let b = bytes[j];
        proof {
            assert(d[j - from] == bytes@[j as int]);
        }
        if b < 48 || b > 57 {
            proof {
                assert(!is_digit(d[j - from]));
            }
            return (false, zero);
        }
        if b != 48 {
            zero = false;
            proof {
                assert(d[j - from] != 48);
            }
        }
        j = j + 1;
    }
    (true, zero)
}

/// Reads the exponent part after the marker with saturation: `None` when
/// it is not a sign and digits; otherwise the exponent, exact unless the
/// flag reports it as saturated at `EXP_CAP` in magnitude.
#[verifier::loop_isolation(false)]
fn exp_value(bytes: &Vec<u8>, estart: usize) -> (r: Option<(i128, bool)>)
    requires
        estart <= bytes@.len(),
    ensures
        ({
            let eo = parse_exp_spec(bytes@.subrange(estart as int, bytes@.len() as int));
            match r {
                None => eo is None,
                Some((e, huge)) => {
                    &&& eo is Some
                    &&& -EXP_CAP <= e <= EXP_CAP
                    &&& !huge ==> eo->0 == e as int
                    &&& huge ==> (e == EXP_CAP && eo->0 >= EXP_CAP as int) || (e == -EXP_CAP
                        && eo->0 <= -(EXP_CAP as int))
                },
            }
        }),
{
    let ghost ep = bytes@.subrange(estart as int, bytes@.len() as int);
    let len = bytes.len();
    if estart >= len {
        return None;
    }
    let eb0 = bytes[estart];
    proof {
        assert(ep[0] == bytes@[estart as int]);
    }
    let e_neg = eb0 == 45;
    let dstart: usize = if eb0 == 45 || eb0 == 43 {
        estart + 1
    } else {
        estart
    };
    let ghost ed = if ep[0] == 45 || ep[0] == 43 {
        ep.subrange(1, ep.len() as int)
    } else {
        ep
    };
    proof {
        assert(ed =~= bytes@.subrange(dstart as int, len as int));
        assert(forall|k: int| 0 <= k < ed.len() ==> #[trigger] ed[k] == bytes@[dstart as int + k]);
    }
    if dstart >= len {
        proof {
            assert(ed.len() == 0);
        }
        return None;
    }
    let mut k = dstart;
    let mut acc: i128 = 0;
    let mut huge = false;
    while k < len
        invariant
            dstart <= k <= len,
            all_digits(ed.subrange(0, k - dstart)),
            !huge ==> 0 <= acc <= EXP_CAP && acc == digits_val(ed.subrange(0, k - dstart)),
            huge ==> acc == EXP_CAP && digits_val(ed.subrange(0, k - dstart)) > EXP_CAP as int,
        decreases len - k,
    {
        let b = bytes[k];
        proof {
            assert(ed[k - dstart] == bytes@[k as int]);
        }
        if b < 48 || b > 57 {
            proof {
                assert(!is_digit(ed[k - dstart]));
            }
            return None;
        }
        proof {
            lemma_digits_step(ed, k - dstart);
            assert(all_digits(ed.subrange(0, k - dstart + 1))) by {
                assert(forall|j: int|
                    0 <= j < k - dstart ==> #[trigger] ed.subrange(0, k - dstart + 1)[j]
                        == ed.subrange(0, k - dstart)[j]);
                assert(ed.subrange(0, k - dstart + 1)[k - dstart] == ed[k - dstart]);
            }
            lemma_digits_val_nonneg(ed.subrange(0, k - dstart));
        }
        if !huge {
            acc = acc * 10 + ((b - 48) as i128);
            if acc > EXP_CAP {
                huge = true;
                acc = EXP_CAP;
            }
        }
        k = k + 1;
    }
    proof {
        assert(ed.subrange(0, ed.len() as int) =~= ed);
        assert(ed.len() > 0);
    }
    let e: i128 = if e_neg {
        -acc
    } else {
        acc
    };
    Some((e, huge))
}

/// Accumulates the value of the first `take_n` digits of the mantissa
/// (integer digits, then fraction digits), reporting saturation past
/// `VMAX`.
#[verifier::loop_isolation(false)]
fn digits_value_sat(
    bytes: &Vec<u8>,
    start: usize,
    l1: usize,
    fstart: usize,
    l2: usize,
    take_n: usize,
) -> (r: (u128, bool))
    requires
        start + l1 <= bytes@.len(),
        fstart + l2 <= bytes@.len(),
        start + l1 <= fstart,
        take_n <= l1 + l2,
        all_digits(
            bytes@.subrange(start as int, (start + l1) as int) + bytes@.subrange(
                fstart as int,
                (fstart + l2) as int,
            ),
        ),
    ensures
        ({
            let dd = bytes@.subrange(start as int, (start + l1) as int) + bytes@.subrange(
                fstart as int,
                (fstart + l2) as int,
            );
            &&& !r.1 ==> 0 <= r.0 as int <= VMAX as int && r.0 as int == digits_val(
                dd.subrange(0, take_n as int),
            )
            &&& r.1 ==> digits_val(dd.subrange(0, take_n as int)) > VMAX as int
        }),
{
    let ghost d1 = bytes@.subrange(start as int, (start + l1) as int);
    let ghost d2 = bytes@.subrange(fstart as int, (fstart + l2) as int);
    let ghost dd = d1 + d2;
    let n = bytes.len();
    proof {
        assert(fstart + l2 <= n);
        assert(start + l1 <= n);
    }
    let mut acc: u128 = 0;
    let mut satm = false;
    let mut t: usize = 0;
    while t < take_n
        invariant
            0 <= t <= take_n,
            !satm ==> 0 <= acc as int <= VMAX as int && acc as int == digits_val(
                dd.subrange(0, t as int),
            ),
            satm ==> digits_val(dd.subrange(0, t as int)) > VMAX as int,
        decreases take_n - t,
    {
        let b: u8 = if t < l1 {
            bytes[start + t]
        } else {
            bytes[fstart + (t - l1)]
        };
        proof {
            if t < l1 {
                assert(dd[t as int] == d1[t as int]);
                assert(d1[t as int] == bytes@[start as int + t]);
            } else {
                assert(dd[t as int] == d2[t as int - l1 as int]);
                assert(d2[t as int - l1 as int] == bytes@[fstart as int + (t - l1)]);
            }
            assert(b == dd[t as int]);
            assert(is_digit(dd[t as int]));
            lemma_digits_step(dd, t as int);
            assert(all_digits(dd.subrange(0, t as int))) by {
                assert(forall|j: int|
                    0 <= j < t as int ==> #[trigger] dd.subrange(0, t as int)[j] == dd[j]);
            }
            lemma_digits_val_nonneg(dd.subrange(0, t as int));
        }
        if !satm {
            acc = acc * 10 + ((b - 48) as u128);
            if acc > VMAX as u128 {
                satm = true;
            }
        }
        t = t + 1;
    }
    (acc, satm)
}

/// Index of the first occurrence of `b1` or `b2` in `bytes[from..to]`,
/// as an absolute index, matching [`find_byte2`] on that range.
#[verifier::loop_isolation(false)]
fn find_marker2(bytes: &Vec<u8>, from: usize, to: usize, b1: u8, b2: u8) -> (r: usize)
    requires
        from <= to <= bytes@.len(),
    ensures
        from <= r <= to,
        find_byte2(bytes@.subrange(from as int, to as int), b1, b2) == r - from,
{
    let ghost d = bytes@.subrange(from as int, to as int);
    proof {
        lemma_find_byte2(d, b1, b2);
        assert(forall|k: int| 0 <= k < d.len() ==> #[trigger] d[k] == bytes@[from as int + k]);
    }
    let mut i = from;
    while i < to && bytes[i] != b1 && bytes[i] != b2
        invariant
            from <= i <= to,
            forall|j: int| from as int <= j < i as int ==> bytes@[j] != b1 && bytes@[j] != b2,
        decreases to - i,
    {
        i = i + 1;
    }
    proof {
        let f = find_byte2(d, b1, b2);
        if f < i - from {
            assert(d[f] == bytes@[from as int + f]);
        }
        if f > i - from && (i as int) < to as int {
            assert(d[i - from] == bytes@[i as int]);
        }
        assert(f == i - from);
    }
    i
}

/// Parses the byte string as a numeric literal, following
/// [`parse_spec`]: `None` exactly when the bytes are not a well-formed
/// literal.
#[verifier::loop_isolation(false)]
#[verifier::rlimit(100)]
pub fn parse_num(bytes: &Vec<u8>) -> (r: Option<Num>)
    ensures
        match r {
            Some(n) => parse_spec(bytes@) == Some(n@) && n.wf(),
            None => parse_spec(bytes@) is None,
        },
{
    let ghost s0 = bytes@;
    let len = bytes.len();
    if len == 0 {
        return None;
    }
    let b0 = bytes[0];
    let neg = b0 == 45;
    let start: usize = if b0 == 45 || b0 == 43 {
        1
    } else {
        0
    };
    let ghost r1 = if s0[0] == 45 || s0[0] == 43 {
        s0.subrange(1, s0.len() as int)
    } else {
        s0
    };
    proof {
        assert(r1 =~= s0.subrange(start as int, s0.len() as int));
    }
    // Locate the exponent marker.
    let ei = find_marker2(bytes, start, len, 101, 69);
    let ghost fe = find_byte2(r1, 101, 69);
    proof {
        assert(fe == ei - start);
    }
    let ghost mant = r1.subrange(0, fe);
    let ghost eo: Option<int> = if fe == r1.len() {
        Some(0)
    } else {
        parse_exp_spec(r1.subrange(fe + 1, r1.len() as int))
    };
    // Parse the exponent, saturated far outside the meaningful range.
    let mut e_sat: i128 = 0;
    let mut e_huge = false;
    if ei < len {
        proof {
            assert(r1.subrange(fe + 1, r1.len() as int) =~= s0.subrange(
                ei as int + 1,
                len as int,
            ));
        }
        match exp_value(bytes, ei + 1) {
            None => {
                proof {
                    assert(eo is None);
                }
                return None;
            },
            Some((e, huge)) => {
                e_sat = e;
                e_huge = huge;
            },
        }
    }
    proof {
        assert(eo is Some);
        assert(!e_huge ==> eo->0 == e_sat as int);
        assert(e_huge ==> (e_sat == EXP_CAP && eo->0 >= EXP_CAP as int) || (e_sat == -EXP_CAP
            && eo->0 <= -(EXP_CAP as int)));
    }
    // Split the mantissa at the decimal point.
    proof {
        assert(mant =~= s0.subrange(start as int, ei as int));
    }
    let di = find_marker2(bytes, start, ei, 46, 46);
    let ghost fd = find_byte2(mant, 46, 46);
    proof {
        assert(fd == di - start);
    }
    let ghost d1 = mant.subrange(0, fd);
    let ghost d2 = if fd == mant.len() {
        Seq::<u8>::empty()
    } else {
        mant.subrange(fd + 1, mant.len() as int)
    };
    let l1 = di - start;
    let l2: usize = if di < ei {
        ei - di - 1
    } else {
        0
    };
    let fstart: usize = if di < ei {
        di + 1
    } else {
        di
    };
    proof {
        assert(d1 =~= s0.subrange(start as int, (start + l1) as int));
        assert(d2 =~= s0.subrange(fstart as int, (fstart + l2) as int));
    }
    // Validate the mantissa digits.
    let (ok1, _z1) = scan_digits(bytes, start, di);
    if !ok1 {
        proof {
            assert(parse_mag_spec(r1) is None);
        }
        return None;
    }
    let (ok2, _z2) = scan_digits(bytes, fstart, fstart + l2);
    if !ok2 {
        proof {
            assert(parse_mag_spec(r1) is None);
        }
        return None;
    }
    if l1 == 0 && l2 == 0 {
        proof {
            assert(parse_mag_spec(r1) is None);
        }
        return None;
    }
    let ghost dd = d1 + d2;
    let ghost e_spec = eo->0;
    let ghost mag = mag_spec(dd, e_spec - l2 as int);
    proof {
        assert(all_digits(dd)) by {
            assert(forall|k: int| 0 <= k < d1.len() ==> #[trigger] dd[k] == d1[k]);
            assert(forall|k: int|
                d1.len() <= k < dd.len() ==> #[trigger] dd[k] == d2[k - d1.len()]);
        }
        assert(parse_mag_spec(r1) == Some(mag));
        assert(parse_spec(s0) == Some(
            if s0[0] == 45 {
                -mag
            } else {
                mag
            },
        ));
    }
    let m = magnitude(bytes, start, l1, fstart, l2, e_sat, e_huge, Ghost(e_spec));
    let v: i128 = if neg {
        -m
    } else {
        m
    };
    Some(Num { v })
}

/// Computes the nonnegative scaled magnitude the mantissa digits and
/// exponent denote, following [`mag_spec`].
#[verifier::loop_isolation(false)]
#[verifier::rlimit(100)]
fn magnitude(
    bytes: &Vec<u8>,
    start: usize,
    l1: usize,
    fstart: usize,
    l2: usize,
    e_sat: i128,
    e_huge: bool,
    Ghost(e_spec): Ghost<int>,
) -> (m: i128)
    requires
        start + l1 <= bytes@.len(),
        fstart + l2 <= bytes@.len(),
        start + l1 <= fstart,
        l1 + l2 > 0,
        all_digits(
            bytes@.subrange(start as int, (start + l1) as int) + bytes@.subrange(
                fstart as int,
                (fstart + l2) as int,
            ),
        ),
        -EXP_CAP <= e_sat <= EXP_CAP,
        !e_huge ==> e_spec == e_sat as int,
        e_huge ==> (e_sat == EXP_CAP && e_spec >= EXP_CAP as int) || (e_sat == -EXP_CAP
            && e_spec <= -(EXP_CAP as int)),
    ensures
        ({
            let dd = bytes@.subrange(start as int, (start + l1) as int) + bytes@.subrange(
                fstart as int,
                (fstart + l2) as int,
            );
            m as int == mag_spec(dd, e_spec - l2 as int) && 0 <= m <= VMAX
        }),
{
    let ghost d1 = bytes@.subrange(start as int, (start + l1) as int);
    let ghost d2 = bytes@.subrange(fstart as int, (fstart + l2) as int);
    let ghost dd = d1 + d2;
    let ghost mag = mag_spec(dd, e_spec - l2 as int);
    let ghost shift = 9 + (e_spec - l2 as int);
    let n = bytes.len();
    proof {
        assert(start + l1 <= n && fstart + l2 <= n);
    }
    let total: usize = l1 + l2;
    proof {
        lemma_digits_val_zero(dd);
        lemma_digits_val_nonneg(dd);
    }
    // An all-zero mantissa denotes zero whatever the exponent says.
    let (_o1, zero1) = scan_digits(bytes, start, start + l1);
    let (_o2, zero2) = scan_digits(bytes, fstart, fstart + l2);
    proof {
        assert(forall|k: int| 0 <= k < d1.len() ==> #[trigger] dd[k] == d1[k]);
        assert(forall|k: int|
            d1.len() <= k < dd.len() ==> #[trigger] dd[k] == d2[k - d1.len()]);
        assert(_o1 && _o2) by {
            assert(forall|k: int| 0 <= k < d1.len() ==> #[trigger] d1[k] == dd[k]);
            assert(forall|k: int|
                0 <= k < d2.len() ==> #[trigger] d2[k] == dd[d1.len() + k]);
        }
    }
    if zero1 && zero2 {
        proof {
            assert(forall|k: int| 0 <= k < dd.len() ==> #[trigger] dd[k] == 48);
            assert(digits_val(dd) == 0);
            if shift >= 0 {
                assert(digits_val(dd) * pow10(shift as nat) == 0) by (nonlinear_arith)
                    requires
                        digits_val(dd) == 0,
                ;
            } else if dd.len() + shift > 0 {
                lemma_digits_val_zero_prefix(dd, dd.len() + shift);
            }
            assert(mag == 0);
        }
        return 0;
    }
    proof {
        if digits_val(dd) == 0 {
            assert(forall|k: int| 0 <= k < dd.len() ==> #[trigger] dd[k] == 48);
            assert(forall|k: int|
                0 <= k < d1.len() ==> #[trigger] d1[k] == dd[k] && dd[k] == 48);
            assert(forall|k: int|
                0 <= k < d2.len() ==> #[trigger] d2[k] == dd[d1.len() + k] && dd[d1.len() + k]
                    == 48);
            assert(zero1 && zero2);
        }
        assert(digits_val(dd) != 0);
    }
    // A shift far to the left saturates; one far to the right vanishes.
    let shift_sat: i128 = 9 + e_sat - (l2 as i128);
    if shift_sat >= 40 {
        proof {
            if e_huge {
                assert(e_spec >= EXP_CAP as int);
                assert(shift >= 40);
            } else {
                assert(shift == shift_sat as int);
            }
            lemma_mag_overflows(dd, shift as nat);
            assert(mag == VMAX as int);
        }
        return VMAX;
    }
    if shift_sat <= -(total as i128) {
        proof {
            if e_huge {
                assert(e_spec <= -(EXP_CAP as int));
                assert(shift <= -(total as int));
            } else {
                assert(shift == shift_sat as int);
            }
            assert(dd.len() + shift <= 0);
            assert(shift < 0);
            assert(mag == 0);
        }
        return 0;
    }
    proof {
        assert(!e_huge);
        assert(e_spec == e_sat as int);
        assert(shift == shift_sat as int);
    }
    // Exact case: keep the digits whose place value survives, then shift.
    let keep_i: i128 = (total as i128) + shift_sat;
    let take_n: usize = if keep_i < total as i128 {
        keep_i as usize
    } else {
        total
    };
    let (acc0, satm) = digits_value_sat(bytes, start, l1, fstart, l2, take_n);
    let ghost base = digits_val(dd.subrange(0, take_n as int));
    // Append the zeros a positive shift calls for.
    let mut acc = acc0;
    let mut satz = satm;
    let mut extra: i128 = if keep_i < total as i128 {
        0
    } else {
        keep_i - (total as i128)
    };
    let ghost mut done: nat = 0;
    proof {
        assert(pow10(0) == 1);
    }
    while extra > 0
        invariant
            0 <= extra <= 39,
            done + extra == if keep_i < total as i128 {
                0
            } else {
                shift
            },
            !satz ==> 0 <= acc as int <= VMAX as int && acc as int == base * pow10(done),
            satz ==> base * pow10(done) > VMAX as int,
        decreases extra,
    {
        proof {
            lemma_mul10(base, done);
        }
        if !satz {
            acc = acc * 10;
            if acc > VMAX as u128 {
                satz = true;
            }
        }
        proof {
            done = done + 1;
        }
        extra = extra - 1;
    }
    proof {
        if keep_i < total as i128 {
            assert(shift < 0);
            assert(dd.len() + shift == take_n as int);
            assert(done == 0);
            if !satz {
                assert(acc as int == base);
                assert(mag == base);
            } else {
                assert(mag == VMAX as int);
            }
        } else {
            assert(shift >= 0);
            assert(dd.subrange(0, take_n as int) =~= dd);
            if !satz {
                assert(acc as int == digits_val(dd) * pow10(shift as nat));
                assert(mag == acc as int);
            } else {
                assert(mag == VMAX as int);
            }
        }
    }
    if satz {
        VMAX
    } else {
        acc as i128
    }
}

} // verus!
