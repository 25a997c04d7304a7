//! Single-precision samples, given by their bit patterns, scaled to 16 bits.
//!
//! A single is multiplied by 32767 and the product cut off to an integer. The
//! product of two singles is the single nearest to the true product, and of two
//! equally near ones that with the even significand.
use vstd::arithmetic::div_mod::*;
use vstd::arithmetic::power2::*;
use vstd::prelude::*;

verus! {

/// How many binary digits a number has.
pub open spec fn bit_len(n: nat) -> nat
    decreases n,
{
    if n == 0 {
        0
    } else {
        1 + bit_len(n / 2)
    }
}

/// A number divided by `2^d`, rounded to nearest, ties to even.
pub open spec fn rounded_shift(p: nat, d: nat) -> nat {
    let q = p / pow2(d);
    let twice = 2 * (p % pow2(d));
    if twice > pow2(d) || (twice == pow2(d) && q % 2 == 1) {
        q + 1
    } else {
        q
    }
}

/// The number of at most 24 binary digits, and zeros after them, nearest to `p`.
pub open spec fn nearest24(p: nat) -> nat {
    if bit_len(p) <= 24 {
        p
    } else {
        let d = (bit_len(p) - 24) as nat;
        rounded_shift(p, d) * pow2(d)
    }
}

pub open spec fn exponent(bits: u32) -> int {
    (bits as int / 0x80_0000) % 256
}

pub open spec fn fraction(bits: u32) -> int {
    bits as int % 0x80_0000
}

pub open spec fn is_negative(bits: u32) -> bool {
    bits >= 0x8000_0000
}

pub open spec fn is_nan(bits: u32) -> bool {
    exponent(bits) == 255 && fraction(bits) != 0
}

/// The magnitude of a normal single below `2^23` times 32767, cut off.
pub open spec fn scaled_magnitude(bits: u32) -> int {
    (nearest24(((0x80_0000 + fraction(bits)) * 32767) as nat) / pow2(
        (150 - exponent(bits)) as nat,
    )) as int
}

/// A single times 32767 as a 16-bit integer: cut off towards zero, kept within
/// range, and zero for what is not a number.
pub open spec fn scaled(bits: u32) -> int {
    let limit: int = if is_negative(bits) {
        32768
    } else {
        32767
    };
    let magnitude = if is_nan(bits) || exponent(bits) == 0 {
        0
    } else if exponent(bits) >= 150 || scaled_magnitude(bits) > limit {
        limit
    } else {
        scaled_magnitude(bits)
    };
    if is_negative(bits) {
        -magnitude
    } else {
        magnitude
    }
}

/// The same for a single that is first kept between minus one and one.
pub open spec fn clamped_scaled(bits: u32) -> int {
    if exponent(bits) >= 127 && !is_nan(bits) {
        if is_negative(bits) {
            -32767
        } else {
            32767
        }
    } else {
        scaled(bits)
    }
}

proof fn lemma_bit_len(n: nat, k: nat)
    requires
        pow2(k) <= n < pow2(k + 1),
    ensures
        bit_len(n) == k + 1,
    decreases k,
{
    lemma_pow2_pos(k);
    lemma_pow2_unfold(k + 1);
    if k == 0 {
        lemma2_to64();
        assert(n == 1);
        assert(bit_len(0) == 0);
    } else {
        lemma_pow2_unfold(k);
        lemma_bit_len(n / 2, (k - 1) as nat);
    }
}

fn rounded_shift_of(p: u64, d: u64, scale: u64) -> (r: u64)
    requires
        scale == pow2(d as nat),
        2 <= scale <= 0x8000,
        p < 0x80_0000_0000,
    ensures
        r == rounded_shift(p as nat, d as nat),
        r <= p / 2 + 1,
{
    let q: u64 = p / scale;
    let twice: u64 = 2 * (p % scale);
    assert(q <= p / 2) by (nonlinear_arith)
        requires
            q == p / scale,
            scale >= 2,
    ;
    if twice > scale || (twice == scale && q % 2 == 1) {
        q + 1
    } else {
        q
    }
}

/// See [`nearest24`], for the products that occur here.
fn nearest24_of(p: u64) -> (r: u64)
    requires
        0x20_0000_0000 <= p < 0x80_0000_0000,
    ensures
        r == nearest24(p as nat),
        r <= 0x100_0000_0000,
{
    proof {
        lemma2_to64();
        lemma2_to64_rest();
    }
    if p < 0x40_0000_0000 {
        proof {
            lemma_bit_len(p as nat, 37);
        }
        let q: u64 = rounded_shift_of(p, 14, 0x4000);
        assert(p / 0x4000 < 0x100_0000);
        q * 0x4000
    } else {
        proof {
            lemma_bit_len(p as nat, 38);
        }
        let q: u64 = rounded_shift_of(p, 15, 0x8000);
        assert(p / 0x8000 < 0x100_0000);
        q * 0x8000
    }
}

fn divided_by_pow2(n: u64, k: u64) -> (r: u64)
    requires
        n <= 0x100_0000_0000,
    ensures
        r as nat == n as nat / pow2(k as nat),
{
    if k < 64 {
        proof {
            vstd::bits::lemma_u64_shr_is_div(n, k);
        }
        n >> k
    } else {
        proof {
            lemma2_to64();
            lemma2_to64_rest();
            if k > 64 {
                lemma_pow2_strictly_increases(64, k as nat);
            }
            lemma_basic_div(n as int, pow2(k as nat) as int);
        }
        0
    }
}

/// See [`scaled`].
pub fn scale_sample(bits: u32) -> (s: i16)
    ensures
        s == scaled(bits),
{
    let negative: bool = bits >= 0x8000_0000;
    let exp: u64 = ((bits / 0x80_0000) % 256) as u64;
    let frac: u64 = (bits % 0x80_0000) as u64;
    let limit: u64 = if negative {
        32768
    } else {
        32767
    };
    let magnitude: u64 = if (exp == 255 && frac != 0) || exp == 0 {
        0
    } else if exp >= 150 {
        limit
    } else {
        let m: u64 = divided_by_pow2(nearest24_of((0x80_0000 + frac) * 32767), 150 - exp);
        if m > limit {
            limit
        } else {
            m
        }
    };
    if negative {
        (-(magnitude as i32)) as i16
    } else {
        magnitude as i16
    }
}

/// See [`clamped_scaled`].
pub fn scale_clamped(bits: u32) -> (s: i16)
    ensures
        s == clamped_scaled(bits),
{
    let exp: u32 = (bits / 0x80_0000) % 256;
    let frac: u32 = bits % 0x80_0000;
    if exp >= 127 && !(exp == 255 && frac != 0) {
        if bits >= 0x8000_0000 {
            -32767
        } else {
            32767
        }
    } else {
        scale_sample(bits)
    }
}

/// A clamped sample never reaches the lowest 16-bit value.
pub proof fn clamped_stays_symmetric(bits: u32)
    ensures
        -32767 <= clamped_scaled(bits) <= 32767,
{
    if exponent(bits) < 127 && exponent(bits) > 0 {
        let f = fraction(bits);
        let p = ((0x80_0000 + f) * 32767) as nat;
        lemma2_to64();
        lemma2_to64_rest();
        let d: nat = if p < 0x40_0000_0000 {
            14
        } else {
            15
        };
        if p < 0x40_0000_0000 {
            lemma_bit_len(p, 37);
        } else {
            lemma_bit_len(p, 38);
        }
        // at most the largest product, rounded up to a multiple of 2^15
        assert(rounded_shift(p, d) * pow2(d) <= 0x7F_FF80_0000);
        let k = (150 - exponent(bits)) as nat;
        let n = nearest24(p);
        if k > 24 {
            lemma_pow2_strictly_increases(24, k);
        }
        lemma_div_is_ordered_by_denominator(n as int, 0x100_0000, pow2(k) as int);
        assert(n as int / 0x100_0000 <= 32767);
    }
}

proof fn lemma_nearest24(p: nat)
    requires
        0x20_0000_0000 <= p < 0x80_0000_0000,
    ensures
        p - 0x4000 <= nearest24(p) <= p + 0x4000,
{
    lemma2_to64();
    lemma2_to64_rest();
    if p < 0x40_0000_0000 {
        lemma_bit_len(p, 37);
        assert(rounded_shift(p, 14) * 0x4000 <= p + 0x2000);
        assert(rounded_shift(p, 14) * 0x4000 >= p - 0x2000);
    } else {
        lemma_bit_len(p, 38);
        assert(rounded_shift(p, 15) * 0x8000 <= p + 0x4000);
        assert(rounded_shift(p, 15) * 0x8000 >= p - 0x4000);
    }
}

/// A normal single of exponent `e` has the value `n / 2^(150 - e)`, where `n` are its
/// 24 digits. Its sample is that value times 32767 without what follows the point,
/// up to what a product of singles may be off, unless it is over full scale; the
/// sign is the single's.
pub proof fn samples_are_scaled_values(bits: u32)
    requires
        1 <= (bits as int / 0x80_0000) % 256 < 150,
    ensures
        ({
            let n = 0x80_0000 + bits as int % 0x80_0000;
            let unit = pow2((150 - (bits as int / 0x80_0000) % 256) as nat) as int;
            let limit = if bits >= 0x8000_0000 {
                32768
            } else {
                32767int
            };
            let m = if bits >= 0x8000_0000 {
                -scaled(bits)
            } else {
                scaled(bits)
            };
            &&& 0 <= m <= limit
            &&& m * unit <= n * 32767 + 0x4000
            &&& m < limit ==> n * 32767 < (m + 1) * unit + 0x4000
        }),
{
    let e = exponent(bits);
    let n = 0x80_0000 + fraction(bits);
    let unit = pow2((150 - e) as nat) as int;
    lemma_pow2_pos((150 - e) as nat);
    let p = (n * 32767) as nat;
    lemma_nearest24(p);
    let r = nearest24(p) as int;
    let q = r / unit;
    lemma_div_pos_is_pos(r, unit);
    lemma_fundamental_div_mod(r, unit);
    lemma_mod_bound(r, unit);
    assert(q == scaled_magnitude(bits));
    assert(q * unit <= r < (q + 1) * unit) by (nonlinear_arith)
        requires
            r == unit * q + r % unit,
            0 <= r % unit < unit,
    ;
    let limit = if bits >= 0x8000_0000 {
        32768
    } else {
        32767int
    };
    if q > limit {
        assert(limit * unit <= q * unit) by (nonlinear_arith)
            requires
                limit < q,
                unit > 0,
        ;
    }
}

/// What is not a number, zero, and what is too small for a normal single give
/// silence; singles of 2^23 and more, infinity among them, give full scale.
pub proof fn samples_at_the_ends(bits: u32)
    ensures
        (bits as int / 0x80_0000) % 256 == 0 ==> scaled(bits) == 0,
        (bits as int / 0x80_0000) % 256 == 255 && bits as int % 0x80_0000 != 0 ==> scaled(bits) == 0,
        (bits as int / 0x80_0000) % 256 == 255 && bits as int % 0x80_0000 == 0 ==> scaled(bits)
            == if bits >= 0x8000_0000 {
            -32768
        } else {
            32767int
        },
        150 <= (bits as int / 0x80_0000) % 256 < 255 ==> scaled(bits) == if bits >= 0x8000_0000 {
            -32768
        } else {
            32767int
        },
{
}

/// A single from one on gives full scale, one from minus one down gives its
/// negative; between them, keeping within full scale changes nothing.
pub proof fn clamping_keeps_what_is_in_scale(bits: u32)
    ensures
        0x3F80_0000 <= bits <= 0x7F80_0000 ==> clamped_scaled(bits) == 32767,
        0xBF80_0000 <= bits <= 0xFF80_0000 ==> clamped_scaled(bits) == -32767,
        bits < 0x3F80_0000 ==> clamped_scaled(bits) == scaled(bits),
        0x8000_0000 <= bits < 0xBF80_0000 ==> clamped_scaled(bits) == scaled(bits),
        0x7F80_0000 < bits < 0x8000_0000 ==> clamped_scaled(bits) == 0,
        bits > 0xFF80_0000 ==> clamped_scaled(bits) == 0,
{
}

/// The negative of a single within full scale gives the negative sample.
pub proof fn clamping_is_odd(bits: u32)
    requires
        bits < 0x8000_0000,
    ensures
        clamped_scaled((bits + 0x8000_0000) as u32) == -clamped_scaled(bits),
{
    let b = (bits + 0x8000_0000) as u32;
    assert(exponent(b) == exponent(bits));
    assert(fraction(b) == fraction(bits));
    clamped_stays_symmetric(bits);
    clamped_stays_symmetric(b);
}

/// Rounding goes to the nearest multiple, and of two equally near ones to the even one.
pub proof fn shifts_round_to_nearest_even(p: nat, d: nat)
    ensures
        ({
            let unit = pow2(d) as int;
            let r = rounded_shift(p, d) as int;
            &&& 2 * (r * unit - p) <= unit
            &&& 2 * (p - r * unit) <= unit
            &&& (2 * (r * unit - p) == unit || 2 * (p - r * unit) == unit) && unit > 1 ==> r % 2
                == 0
        }),
{
    let unit = pow2(d) as int;
    lemma_pow2_pos(d);
    let q = p as int / unit;
    let m = p as int % unit;
    lemma_fundamental_div_mod(p as int, unit);
    lemma_mod_bound(p as int, unit);
    assert(q * unit == unit * q && (q + 1) * unit == q * unit + unit) by (nonlinear_arith);
}

/// A number has `n` binary digits exactly where it is below `2^n` and not below half of
/// that.
pub proof fn digits_measure_numbers(n: nat)
    ensures
        n < pow2(bit_len(n)),
        n > 0 ==> pow2((bit_len(n) - 1) as nat) <= n,
        bit_len(0) == 0,
    decreases n,
{
    lemma2_to64();
    if n > 0 {
        digits_measure_numbers(n / 2);
        lemma_pow2_unfold(bit_len(n));
        if n / 2 > 0 {
            lemma_pow2_unfold(bit_len(n / 2));
        } else {
            assert(bit_len(0) == 0);
        }
    }
}

} // verus!
