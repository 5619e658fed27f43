//! Arithmetic on analog levels.
//!
//! An analog level is the bit pattern of an IEEE-754 single-precision
//! number, held as a `u32`. Every operation the signal algebra needs —
//! classification, negation, magnitude comparison, and the rounded sum —
//! is defined here as plain integer arithmetic on the pattern's fields,
//! so the whole analog domain is verified; nothing is taken on trust.
//!
//! The sum follows the standard's round-to-nearest-even rule, including
//! subnormals, infinities and signed zeros. Sums whose value is a NaN
//! carry the canonical quiet-NaN pattern.
use vstd::prelude::*;

verus! {

/// Sign field: 0 for positive, 1 for negative.
pub open spec fn sign_of(b: u32) -> int {
    b as int / 0x8000_0000
}

/// Biased exponent field (8 bits).
pub open spec fn exp_of(b: u32) -> int {
    (b as int / 0x80_0000) % 0x100
}

/// Fraction field (23 bits).
pub open spec fn frac_of(b: u32) -> int {
    b as int % 0x80_0000
}

/// Magnitude: the pattern with its sign bit cleared.
pub open spec fn mag_of(b: u32) -> int {
    b as int % 0x8000_0000
}

/// NaN: exponent field all ones, nonzero fraction.
pub open spec fn is_nan_bits(b: u32) -> bool {
    exp_of(b) == 0xff && frac_of(b) != 0
}

/// Infinity: exponent field all ones, zero fraction.
pub open spec fn is_inf_bits(b: u32) -> bool {
    exp_of(b) == 0xff && frac_of(b) == 0
}

/// Normal: exponent field neither all zeros (zero or subnormal) nor all
/// ones (infinity or NaN).
pub open spec fn is_normal_bits(b: u32) -> bool {
    exp_of(b) != 0 && exp_of(b) != 0xff
}

/// The canonical quiet NaN pattern.
pub open spec fn canon_nan() -> int {
    0x7fc0_0000
}

/// Exponent scale of a finite pattern: subnormals share the scale of the
/// smallest normal exponent.
pub open spec fn adj_exp(e: int) -> int {
    if e == 0 {
        1
    } else {
        e
    }
}

/// Significand of a finite pattern, hidden bit included for normals.
pub open spec fn sig_of(b: u32) -> int {
    if exp_of(b) == 0 {
        frac_of(b)
    } else {
        frac_of(b) + 0x80_0000
    }
}

/// One halving step that keeps a sticky trace: the low bit survives into
/// the result's low bit, so no discarded one is ever forgotten.
pub open spec fn jam1(x: int) -> int {
    x / 2 + if x % 2 == 1 && (x / 2) % 2 == 0 {
        1int
    } else {
        0int
    }
}

/// Right shift by `d` with a sticky low bit (`d` halving steps).
pub open spec fn srj(x: int, d: int) -> int
    decreases d,
{
    if d <= 0 {
        x
    } else {
        srj(jam1(x), d - 1)
    }
}

/// Renormalize a difference: shift the significand up until its hidden
/// bit returns to position 29, or the exponent bottoms out.
pub open spec fn norm_left(sum: int, e: int) -> (int, int)
    decreases e,
{
    if sum < 0x2000_0000 && e > 1 {
        norm_left(sum * 2, e - 1)
    } else {
        (sum, e)
    }
}

/// Round to nearest, ties to even, on a significand carrying six extra
/// low bits.
pub open spec fn rne(sum: int) -> int {
    sum / 64 + if sum % 64 > 32 || (sum % 64 == 32 && (sum / 64) % 2 == 1) {
        1int
    } else {
        0int
    }
}

/// Encode sign, exponent scale and rounded significand as a bit pattern,
/// handling rounding overflow, exponent overflow and subnormals.
pub open spec fn pack(s: int, e: int, m: int) -> int {
    let e2 = if m == 0x100_0000 {
        e + 1
    } else {
        e
    };
    let m2 = if m == 0x100_0000 {
        0x80_0000int
    } else {
        m
    };
    if e2 >= 255 {
        s * 0x8000_0000 + 0x7f80_0000
    } else if m2 < 0x80_0000 {
        s * 0x8000_0000 + m2
    } else {
        s * 0x8000_0000 + e2 * 0x80_0000 + (m2 - 0x80_0000)
    }
}

/// Sum of two finite patterns, the first of magnitude not below the
/// second's, as sign/scale/significand arithmetic.
pub open spec fn add_finite(big: u32, small: u32) -> int {
    let el = adj_exp(exp_of(big));
    let es = adj_exp(exp_of(small));
    let ml6 = sig_of(big) * 64;
    let ms6 = srj(sig_of(small) * 64, el - es);
    if sign_of(big) == sign_of(small) {
        let sum = ml6 + ms6;
        let sum2 = if sum >= 0x4000_0000 {
            jam1(sum)
        } else {
            sum
        };
        let e2 = if sum >= 0x4000_0000 {
            el + 1
        } else {
            el
        };
        pack(sign_of(big), e2, rne(sum2))
    } else {
        let diff = ml6 - ms6;
        if diff == 0 {
            0
        } else {
            let ne = norm_left(diff, el);
            pack(sign_of(big), ne.1, rne(ne.0))
        }
    }
}

/// The IEEE-754 single-precision sum of two bit patterns, rounded to
/// nearest with ties to even; any NaN outcome is the canonical quiet NaN.
pub open spec fn spec_add_bits(a: u32, b: u32) -> u32 {
    (if is_nan_bits(a) || is_nan_bits(b) {
        canon_nan()
    } else if is_inf_bits(a) {
        if is_inf_bits(b) && sign_of(a) != sign_of(b) {
            canon_nan()
        } else {
            a as int
        }
    } else if is_inf_bits(b) {
        b as int
    } else if mag_of(a) >= mag_of(b) {
        add_finite(a, b)
    } else {
        add_finite(b, a)
    }) as u32
}

/// The pattern with its sign flipped: IEEE-754 negation.
pub open spec fn spec_neg_bits(b: u32) -> u32 {
    (if b >= 0x8000_0000 {
        b as int - 0x8000_0000
    } else {
        b as int + 0x8000_0000
    }) as u32
}

proof fn lemma_jam1_le(x: int)
    requires
        x >= 0,
    ensures
        jam1(x) <= x,
        jam1(x) >= 0,
{
}

proof fn lemma_srj_le(x: int, d: int)
    requires
        x >= 0,
    ensures
        srj(x, d) <= x,
        srj(x, d) >= 0,
    decreases d,
{
    if d > 0 {
        lemma_jam1_le(x);
        lemma_srj_le(jam1(x), d - 1);
    }
}

/// After at least one halving step the value is at most half, plus the
/// sticky bit.
proof fn lemma_srj_halves(x: int, d: int)
    requires
        x >= 0,
        d >= 1,
    ensures
        srj(x, d) <= x / 2 + 1,
{
    lemma_srj_le(jam1(x), d - 1);
}

/// Flip the sign bit of a pattern.
pub fn neg_bits(b: u32) -> (r: u32)
    ensures
        r == spec_neg_bits(b),
{
    if b >= 0x8000_0000 {
        b - 0x8000_0000
    } else {
        b + 0x8000_0000
    }
}

fn shift_right_jam(x: u32, d: u32) -> (r: u32)
    ensures
        r as int == srj(x as int, d as int),
        r <= x,
{
    let mut v = x;
    let mut i: u32 = 0;
    while i < d
        invariant
            0 <= i <= d,
            v <= x,
            srj(x as int, d as int) == srj(v as int, d as int - i),
        decreases d - i,
    {
        proof {
            lemma_jam1_le(v as int);
            assert(srj(v as int, d as int - i) == srj(jam1(v as int), d as int - i - 1));
        }
        let half = v / 2;
        let j: u32 = if v % 2 == 1 && half % 2 == 0 {
            1
        } else {
            0
        };
        v = half + j;
        i = i + 1;
    }
    v
}

/// Sum of two analog levels: verified round-to-nearest-even addition on
/// the bit patterns.
pub fn add_bits(a: u32, b: u32) -> (r: u32)
    ensures
        r == spec_add_bits(a, b),
{
    let exp_a: u32 = (a / 0x80_0000) % 0x100;
    let frac_a: u32 = a % 0x80_0000;
    let exp_b: u32 = (b / 0x80_0000) % 0x100;
    let frac_b: u32 = b % 0x80_0000;
    if (exp_a == 0xff && frac_a != 0) || (exp_b == 0xff && frac_b != 0) {
        return 0x7fc0_0000;
    }
    let sign_a: u32 = a / 0x8000_0000;
    let sign_b: u32 = b / 0x8000_0000;
    if exp_a == 0xff {
        if exp_b == 0xff && sign_a != sign_b {
            return 0x7fc0_0000;
        }
        return a;
    }
    if exp_b == 0xff {
        return b;
    }
    let mag_a: u32 = a % 0x8000_0000;
    let mag_b: u32 = b % 0x8000_0000;
    let (big, small) = if mag_a >= mag_b {
        (a, b)
    } else {
        (b, a)
    };
    let r = add_finite_exec(big, small);
    proof {
        if mag_a >= mag_b {
            assert(spec_add_bits(a, b) == (add_finite(a, b) as u32));
        } else {
            assert(spec_add_bits(a, b) == (add_finite(b, a) as u32));
        }
    }
    r
}

fn add_finite_exec(big: u32, small: u32) -> (r: u32)
    requires
        !is_nan_bits(big),
        !is_inf_bits(big),
        !is_nan_bits(small),
        !is_inf_bits(small),
        mag_of(big) >= mag_of(small),
    ensures
        r as int == add_finite(big, small),
        add_finite(big, small) < 0x1_0000_0000,
{
    let sl: u32 = big / 0x8000_0000;
    let ss: u32 = small / 0x8000_0000;
    let eb: u32 = (big / 0x80_0000) % 0x100;
    let es0: u32 = (small / 0x80_0000) % 0x100;
    let el: u32 = if eb == 0 {
        1
    } else {
        eb
    };
    let es: u32 = if es0 == 0 {
        1
    } else {
        es0
    };
    let ml: u32 = if eb == 0 {
        big % 0x80_0000
    } else {
        big % 0x80_0000 + 0x80_0000
    };
    let ms: u32 = if es0 == 0 {
        small % 0x80_0000
    } else {
        small % 0x80_0000 + 0x80_0000
    };
    proof {
        assert(el as int == adj_exp(exp_of(big)));
        assert(es as int == adj_exp(exp_of(small)));
        assert(ml as int == sig_of(big));
        assert(ms as int == sig_of(small));
        // The magnitude order forces the scale order: the magnitude is
        // exp * 2^23 + frac, and frac stays below 2^23.
        assert(mag_of(big) == exp_of(big) * 0x80_0000 + frac_of(big)) by {
            vstd::arithmetic::div_mod::lemma_fundamental_div_mod(mag_of(big), 0x80_0000);
            assert(mag_of(big) / 0x80_0000 == exp_of(big));
            assert(mag_of(big) % 0x80_0000 == frac_of(big));
        }
        assert(mag_of(small) == exp_of(small) * 0x80_0000 + frac_of(small)) by {
            vstd::arithmetic::div_mod::lemma_fundamental_div_mod(mag_of(small), 0x80_0000);
            assert(mag_of(small) / 0x80_0000 == exp_of(small));
            assert(mag_of(small) % 0x80_0000 == frac_of(small));
        }
        assert(el >= es);
    }
    let d: u32 = el - es;
    let ml6: u32 = ml * 64;
    let ms6: u32 = shift_right_jam(ms * 64, d);
    proof {
        lemma_srj_le((ms * 64) as int, d as int);
        if d >= 1 {
            // A shifted smaller operand cannot exceed the larger one: a
            // positive scale gap means the larger operand is normal.
            lemma_srj_halves((ms * 64) as int, d as int);
            assert(eb >= 2);
            assert(ml6 >= 0x2000_0000);
        }
    }
    if sl == ss {
        let sum: u32 = ml6 + ms6;
        let (sum2, e2) = if sum >= 0x4000_0000 {
            let half = sum / 2;
            let j: u32 = if sum % 2 == 1 && half % 2 == 0 {
                1
            } else {
                0
            };
            (half + j, el + 1)
        } else {
            (sum, el)
        };
        round_pack(sl, e2, sum2)
    } else {
        let diff: u32 = ml6 - ms6;
        if diff == 0 {
            return 0;
        }
        let mut sum2: u32 = diff;
        let mut e2: u32 = el;
        while sum2 < 0x2000_0000 && e2 > 1
            invariant
                sum2 >= 1,
                sum2 < 0x4000_0000,
                e2 >= 1,
                e2 <= el,
                norm_left(diff as int, el as int) == norm_left(sum2 as int, e2 as int),
            decreases e2,
        {
            sum2 = sum2 * 2;
            e2 = e2 - 1;
        }
        round_pack(sl, e2, sum2)
    }
}

fn round_pack(s: u32, e: u32, sum: u32) -> (r: u32)
    requires
        s <= 1,
        1 <= e <= 255,
        sum < 0x4000_0000,
    ensures
        r as int == pack(s as int, e as int, rne(sum as int)),
        pack(s as int, e as int, rne(sum as int)) < 0x1_0000_0000,
{
    let base: u32 = sum / 64;
    let rb: u32 = sum % 64;
    let m: u32 = if rb > 32 || (rb == 32 && base % 2 == 1) {
        base + 1
    } else {
        base
    };
    let (e2, m2) = if m == 0x100_0000 {
        (e + 1, 0x80_0000)
    } else {
        (e, m)
    };
    if e2 >= 255 {
        s * 0x8000_0000 + 0x7f80_0000
    } else if m2 < 0x80_0000 {
        s * 0x8000_0000 + m2
    } else {
        s * 0x8000_0000 + e2 * 0x80_0000 + (m2 - 0x80_0000)
    }
}

} // verus!
