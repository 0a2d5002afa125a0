//! Decimal readings: which texts are decimal numbers, what number a text
//! denotes, and exact scaling and rounding of that number in integers.
use crate::text::{
    digit_of, digit_value, find_first, find_first_in, is_ascii_digit, is_digit, CharTest,
};
use vstd::arithmetic::div_mod::{
    lemma_basic_div, lemma_div_denominator, lemma_fundamental_div_mod,
    lemma_hoist_over_denominator, lemma_mod_bound, lemma_mod_multiples_vanish, lemma_small_mod,
};
use vstd::prelude::*;

verus! {

/// Every character of `s` is a decimal digit.
pub open spec fn all_digits(s: Seq<char>) -> bool {
    forall|i: int| 0 <= i < s.len() ==> is_digit(#[trigger] s[i])
}

/// Length of the sign in front of `s`: one for a leading `+` or `-`, else zero.
pub open spec fn sign_len(s: Seq<char>) -> int {
    if s.len() > 0 && (s[0] == '+' || s[0] == '-') {
        1
    } else {
        0
    }
}

pub open spec fn is_negative(s: Seq<char>) -> bool {
    s.len() > 0 && s[0] == '-'
}

/// Index of the first decimal point behind the sign, or the length of `s`.
pub open spec fn point_at(s: Seq<char>) -> int {
    find_first(s, sign_len(s), s.len() as int, CharTest::Exactly('.'))
}

/// The text between the sign and the decimal point.
pub open spec fn int_digits(s: Seq<char>) -> Seq<char> {
    s.subrange(sign_len(s), point_at(s))
}

/// The text behind the decimal point; empty where there is no point.
pub open spec fn frac_digits(s: Seq<char>) -> Seq<char> {
    if point_at(s) < s.len() {
        s.subrange(point_at(s) + 1, s.len() as int)
    } else {
        Seq::empty()
    }
}

/// A decimal number: an optional sign, then digits with at most one decimal
/// point among them, and at least one digit.
pub open spec fn is_decimal(s: Seq<char>) -> bool {
    &&& all_digits(int_digits(s))
    &&& all_digits(frac_digits(s))
    &&& int_digits(s).len() + frac_digits(s).len() > 0
}

/// A decimal number without a sign.
pub open spec fn is_unsigned_decimal(s: Seq<char>) -> bool {
    is_decimal(s) && sign_len(s) == 0
}

/// The natural number that a digit string denotes.
pub open spec fn digits_value(s: Seq<char>) -> nat
    decreases s.len(),
{
    if s.len() == 0 {
        0
    } else {
        10 * digits_value(s.drop_last()) + digit_value(s.last())
    }
}

pub open spec fn pow10(n: nat) -> nat
    decreases n,
{
    if n == 0 {
        1
    } else {
        10 * pow10((n - 1) as nat)
    }
}

/// `num / den` rounded to the nearest natural number, halves upward.
pub open spec fn round_half_up(num: nat, den: nat) -> nat
    recommends
        den > 0,
{
    ((2 * num + den) / (2 * den)) as nat
}

/// All digits of a decimal, the decimal point taken out: the number is
/// `mantissa / 10^(number of fraction digits)`.
pub open spec fn mantissa(s: Seq<char>) -> nat {
    digits_value(int_digits(s) + frac_digits(s))
}

/// Magnitude of the decimal `s` times `multiplier`, rounded to the nearest
/// natural number, halves away from zero.
pub open spec fn scaled_magnitude(s: Seq<char>, multiplier: nat) -> nat {
    round_half_up(mantissa(s) * multiplier, pow10(frac_digits(s).len()))
}

/// The decimal `s` times `multiplier`, rounded to the nearest integer, halves
/// away from zero.
pub open spec fn scaled_value(s: Seq<char>, multiplier: nat) -> int {
    if is_negative(s) {
        -(scaled_magnitude(s, multiplier) as int)
    } else {
        scaled_magnitude(s, multiplier) as int
    }
}

pub open spec fn clamp_u64(x: int) -> u64 {
    if x < 0 {
        0
    } else if x > u64::MAX {
        u64::MAX
    } else {
        x as u64
    }
}

pub open spec fn clamp_i64(x: int) -> i64 {
    if x < i64::MIN {
        i64::MIN
    } else if x > i64::MAX {
        i64::MAX
    } else {
        x as i64
    }
}

pub proof fn lemma_pow10_positive(n: nat)
    ensures
        pow10(n) > 0,
    decreases n,
{
    if n > 0 {
        lemma_pow10_positive((n - 1) as nat);
    }
}

/// A digit string followed by another denotes the first shifted left by the
/// length of the second, plus the second.
pub proof fn lemma_digits_value_concat(a: Seq<char>, b: Seq<char>)
    ensures
        digits_value(a + b) == digits_value(a) * pow10(b.len()) + digits_value(b),
    decreases b.len(),
{
    let x: int = digits_value(a) as int;
    if b.len() == 0 {
        assert(a + b =~= a);
        assert(x * 1 == x);
    } else {
        assert((a + b).drop_last() =~= a + b.drop_last());
        assert((a + b).last() == b.last());
        lemma_digits_value_concat(a, b.drop_last());
        let p: int = pow10(b.drop_last().len()) as int;
        assert(pow10(b.len()) == 10 * p);
        assert(10 * (x * p) == x * (10 * p)) by (nonlinear_arith);
    }
}

/// `(a * p + b) / p` is `a + b / p`.
proof fn lemma_div_hoist(a: int, b: int, p: int)
    requires
        p > 0,
    ensures
        (a * p + b) / p == a + b / p,
{
    lemma_hoist_over_denominator(b, a, p as nat);
    assert(b + a * p == a * p + b);
}

/// What multiplying the fraction `suffix` by `m` carries past its first digit.
pub open spec fn carry_of(suffix: Seq<char>, m: nat) -> int {
    (digits_value(suffix) * m) as int / (pow10(suffix.len()) as int)
}

/// The first digit of the fraction `suffix` times `m`, carries taken in.
pub open spec fn top_digit_of(suffix: Seq<char>, m: nat) -> int
    recommends
        suffix.len() > 0,
{
    ((digits_value(suffix) * m) as int / (pow10((suffix.len() - 1) as nat) as int)) % 10
}

/// One step of multiplying a fraction by `m`, digit by digit from the right:
/// with the digit `d` put in front of a digit string of value `suf` below
/// `p`, the carry into the next place and the digit left in this one.
proof fn lemma_carry_step(d: int, suf: int, p: int, m: int)
    requires
        0 <= d,
        0 <= suf,
        0 < p,
        0 <= m,
    ensures
        ((d * p + suf) * m) / (p * 10) == (d * m + (suf * m) / p) / 10,
        ((d * p + suf) * m) / p == d * m + (suf * m) / p,
{
    let x: int = (d * p + suf) * m;
    assert(x == (d * m) * p + suf * m) by (nonlinear_arith)
        requires
            x == (d * p + suf) * m,
    ;
    assert(0 <= x) by (nonlinear_arith)
        requires
            x == (d * p + suf) * m,
            0 <= d,
            0 <= suf,
            0 < p,
            0 <= m,
    ;
    lemma_div_hoist(d * m, suf * m, p);
    lemma_div_denominator(x, p, 10);
}

/// Rounding to nearest looks at one digit: the quotient goes up exactly when
/// the first digit behind the point is five or more.
proof fn lemma_round_by_top_digit(x: int, q: int)
    requires
        0 <= x,
        0 < q,
    ensures
        (2 * x + 10 * q) / (2 * (10 * q)) == x / (10 * q) + (if (x / q) % 10 >= 5 {
            1int
        } else {
            0int
        }),
{
    let p: int = 10 * q;
    let whole: int = x / p;
    let r: int = x % p;
    lemma_fundamental_div_mod(x, p);
    lemma_mod_bound(x, p);
    assert(x == p * whole + r);
    // the digit behind the point is r / q
    let top: int = r / q;
    let low: int = r % q;
    lemma_fundamental_div_mod(r, q);
    lemma_mod_bound(r, q);
    assert(0 <= top < 10) by (nonlinear_arith)
        requires
            r == q * top + low,
            0 <= low < q,
            0 <= r < 10 * q,
            q > 0,
    ;
    assert(x == (whole * 10) * q + r) by (nonlinear_arith)
        requires
            x == p * whole + r,
            p == 10 * q,
    ;
    lemma_div_hoist(whole * 10, r, q);
    assert(x / q == whole * 10 + top);
    lemma_mod_multiples_vanish(whole, top, 10);
    lemma_small_mod(top as nat, 10);
    assert((x / q) % 10 == top) by {
        assert(whole * 10 + top == 10 * whole + top);
    }
    // the rounded quotient
    assert(2 * x + p == whole * (2 * p) + (2 * r + p)) by (nonlinear_arith)
        requires
            x == p * whole + r,
    ;
    lemma_div_hoist(whole, 2 * r + p, 2 * p);
    assert((2 * x + p) / (2 * p) == whole + (2 * r + p) / (2 * p));
    if top >= 5 {
        assert(2 * r >= p) by (nonlinear_arith)
            requires
                r == q * top + low,
                0 <= low,
                top >= 5,
                p == 10 * q,
                q > 0,
        ;
        assert((2 * r + p) / (2 * p) == 1) by {
            lemma_div_hoist(1, 2 * r - p, 2 * p);
            lemma_basic_div(2 * r - p, 2 * p);
            assert(1 * (2 * p) + (2 * r - p) == 2 * r + p);
        }
    } else {
        assert(2 * r < p) by (nonlinear_arith)
            requires
                r == q * top + low,
                low < q,
                top <= 4,
                p == 10 * q,
                q > 0,
        ;
        lemma_basic_div(2 * r + p, 2 * p);
    }
}

/// The whole part of a number scales and rounds apart from its fraction.
proof fn lemma_round_split(whole: int, frac: int, p: int, m: int)
    requires
        0 < p,
    ensures
        (2 * ((whole * p + frac) * m) + p) / (2 * p) == whole * m + (2 * (frac * m) + p) / (2 * p),
{
    let lhs: int = 2 * ((whole * p + frac) * m) + p;
    assert(lhs == (whole * m) * (2 * p) + (2 * (frac * m) + p)) by (nonlinear_arith)
        requires
            lhs == 2 * ((whole * p + frac) * m) + p,
    ;
    lemma_div_hoist(whole * m, 2 * (frac * m) + p, 2 * p);
}

/// Saturating conversion of a rounded magnitude and its sign to a gauge value.
pub fn signed_saturating(negative: bool, magnitude: u64) -> (r: i64)
    ensures
        r == clamp_i64(
            if negative {
                -(magnitude as int)
            } else {
                magnitude as int
            },
        ),
{
    if negative {
        if magnitude > 0x7FFF_FFFF_FFFF_FFFF {
            i64::MIN
        } else {
            -(magnitude as i64)
        }
    } else {
        if magnitude > 0x7FFF_FFFF_FFFF_FFFF {
            i64::MAX
        } else {
            magnitude as i64
        }
    }
}

/// Whether the window `from..to` of `s` holds digits only.
fn digits_only(s: &Vec<char>, from: usize, to: usize) -> (r: bool)
    requires
        from <= to <= s.len(),
    ensures
        r == all_digits(s@.subrange(from as int, to as int)),
{
    let mut i: usize = from;
    while i < to
        invariant
            from <= i <= to <= s.len(),
            forall|k: int| from <= k < i ==> is_digit(#[trigger] s@[k]),
        decreases to - i,
    {
        if !is_ascii_digit(s[i]) {
            assert(s@.subrange(from as int, to as int)[i - from] == s@[i as int]);
            return false;
        }
        i = i + 1;
    }
    assert forall|k: int| 0 <= k < to - from implies is_digit(
        #[trigger] s@.subrange(from as int, to as int)[k],
    ) by {
        assert(s@.subrange(from as int, to as int)[k] == s@[from + k]);
    }
    true
}

/// Whether `raw` is a decimal number.
pub fn is_decimal_text(raw: &Vec<char>) -> (r: bool)
    ensures
        r == is_decimal(raw@),
{
    let n: usize = raw.len();
    let sign: usize = if n > 0 && (raw[0] == '+' || raw[0] == '-') {
        1
    } else {
        0
    };
    let point: usize = find_first_in(raw, sign, n, CharTest::Exactly('.'));
    let frac_from: usize = if point < n {
        point + 1
    } else {
        n
    };
    assert(int_digits(raw@) == raw@.subrange(sign as int, point as int));
    assert(frac_digits(raw@) =~= raw@.subrange(frac_from as int, n as int));
    digits_only(raw, sign, point) && digits_only(raw, frac_from, n) && (point - sign) + (n
        - frac_from) > 0
}

/// Reads the decimal `raw`, multiplies it by `multiplier` and rounds to the
/// nearest integer, halves away from zero. Returns the sign and the magnitude,
/// the magnitude saturated at `u64::MAX`; `None` if `raw` is no decimal.
pub fn scale_decimal(raw: &Vec<char>, multiplier: u64) -> (r: Option<(bool, u64)>)
    ensures
        r is Some <==> is_decimal(raw@),
        r matches Some((negative, magnitude)) ==> {
            &&& negative == is_negative(raw@)
            &&& magnitude == clamp_u64(scaled_magnitude(raw@, multiplier as nat) as int)
        },
{
    let n: usize = raw.len();
    let sign: usize = if n > 0 && (raw[0] == '+' || raw[0] == '-') {
        1
    } else {
        0
    };
    let negative = n > 0 && raw[0] == '-';
    if !is_decimal_text(raw) {
        return None;
    }
    let point: usize = find_first_in(raw, sign, n, CharTest::Exactly('.'));
    let frac_from: usize = if point < n {
        point + 1
    } else {
        n
    };
    assert(int_digits(raw@) == raw@.subrange(sign as int, point as int));
    assert(frac_digits(raw@) =~= raw@.subrange(frac_from as int, n as int));
    let ghost whole: Seq<char> = int_digits(raw@);
    let ghost frac: Seq<char> = frac_digits(raw@);
    let ghost m: nat = multiplier as nat;

    // The fraction times the multiplier, digit by digit from the right:
    // what is carried into the units, and the first digit behind the point.
    let mut carry: u128 = 0;
    let mut top: u128 = 0;
    let mut i: usize = n;
    proof {
        assert(raw@.subrange(n as int, n as int).len() == 0);
        assert(0 * m == 0);
    }
    while i > frac_from
        invariant
            frac_from <= i <= n == raw.len(),
            frac == raw@.subrange(frac_from as int, n as int),
            all_digits(frac),
            m == multiplier,
            carry <= multiplier,
            carry == carry_of(raw@.subrange(i as int, n as int), m),
            i < n ==> top == top_digit_of(raw@.subrange(i as int, n as int), m),
        decreases i,
    {
        let ghost suffix: Seq<char> = raw@.subrange(i as int, n as int);
        let ghost k: nat = (n - i) as nat;
        i = i - 1;
        assert(is_digit(raw@[i as int])) by {
            assert(frac[i - frac_from] == raw@[i as int]);
        }
        let d: u8 = digit_of(raw[i]);
        proof {
            let head: Seq<char> = seq![raw@[i as int]];
            assert(raw@.subrange(i as int, n as int) =~= head + suffix);
            lemma_digits_value_concat(head, suffix);
            assert(head.drop_last().len() == 0);
            assert(digits_value(head.drop_last()) == 0);
            assert(digits_value(head) == d as nat);
            lemma_pow10_positive(k);
            lemma_carry_step(d as int, digits_value(suffix) as int, pow10(k) as int, m as int);
            assert(pow10((k + 1) as nat) == pow10(k) * 10);
            assert(d as int * m <= 9 * m) by (nonlinear_arith)
                requires
                    d <= 9,
                    0 <= m,
            ;
        }
        let t: u128 = d as u128 * multiplier as u128 + carry;
        carry = t / 10;
        top = t % 10;
    }
    proof {
        assert(raw@.subrange(frac_from as int, n as int) == frac);
    }
    let round_up: u128 = if frac_from < n && top >= 5 {
        1
    } else {
        0
    };
    proof {
        // carry + round_up is the fraction, scaled and rounded
        let f: nat = digits_value(frac);
        let kf: nat = frac.len();
        lemma_pow10_positive(kf);
        if kf == 0 {
            assert(f == 0);
            assert(pow10(kf) == 1);
            let z: nat = f * m;
            assert(z == 0) by (nonlinear_arith)
                requires
                    z == f * m,
                    f == 0,
            ;
            assert(round_half_up(z, 1) == (1int / 2int) as nat);
            assert(round_half_up(f * m, pow10(kf)) == 0);
        } else {
            lemma_pow10_positive((kf - 1) as nat);
            lemma_round_by_top_digit((f * m) as int, pow10((kf - 1) as nat) as int);
        }
        assert(round_half_up(f * m, pow10(kf)) == carry + round_up);
    }

    // The whole part, saturated.
    let mut units: u64 = 0;
    let mut j: usize = sign;
    while j < point
        invariant
            sign <= j <= point <= raw.len(),
            whole == raw@.subrange(sign as int, point as int),
            all_digits(whole),
            units == clamp_u64(digits_value(raw@.subrange(sign as int, j as int)) as int),
        decreases point - j,
    {
        assert(is_digit(raw@[j as int])) by {
            assert(whole[j - sign] == raw@[j as int]);
        }
        let d: u8 = digit_of(raw[j]);
        proof {
            let next: Seq<char> = raw@.subrange(sign as int, j + 1);
            assert(next.drop_last() =~= raw@.subrange(sign as int, j as int));
            assert(next.last() == raw@[j as int]);
        }
        let t: u128 = units as u128 * 10 + d as u128;
        units = if t > 0xFFFF_FFFF_FFFF_FFFF {
            0xFFFF_FFFF_FFFF_FFFF
        } else {
            t as u64
        };
        j = j + 1;
    }
    assert(raw@.subrange(sign as int, point as int) == whole);
    assert(units as u128 * multiplier as u128 <= 0xFFFF_FFFF_FFFF_FFFF * 0xFFFF_FFFF_FFFF_FFFF)
        by (nonlinear_arith)
        requires
            units <= 0xFFFF_FFFF_FFFF_FFFF,
            multiplier <= 0xFFFF_FFFF_FFFF_FFFF,
    ;
    let total: u128 = units as u128 * multiplier as u128 + carry + round_up;
    let magnitude: u64 = if total > 0xFFFF_FFFF_FFFF_FFFF {
        0xFFFF_FFFF_FFFF_FFFF
    } else {
        total as u64
    };
    proof {
        let w: nat = digits_value(whole);
        let f: nat = digits_value(frac);
        let p: nat = pow10(frac.len());
        lemma_pow10_positive(frac.len());
        lemma_digits_value_concat(whole, frac);
        lemma_round_split(w as int, f as int, p as int, m as int);
        let exact: nat = scaled_magnitude(raw@, m);
        assert(exact == w * m + carry + round_up);
        if units < u64::MAX || w == u64::MAX {
            assert(units == w);
        } else {
            // the whole part alone is past the range
            if m == 0 {
                assert(w * m == 0 && units * m == 0) by (nonlinear_arith)
                    requires
                        m == 0,
                ;
            } else {
                assert(w * m >= u64::MAX && units * m >= u64::MAX) by (nonlinear_arith)
                    requires
                        w >= u64::MAX,
                        units == u64::MAX,
                        m >= 1,
                ;
            }
        }
    }
    Some((negative, magnitude))
}

} // verus!
