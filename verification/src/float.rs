//! IEEE 754 numbers as bit patterns: widening binary16 and binary32 to
//! binary64, and the exact narrowing that picks the shortest wire form.
use vstd::prelude::*;

verus! {

/// 2^42: the binary64 fraction has 42 bits more than the binary16 fraction.
pub const HALF_SCALE: u64 = 0x400_0000_0000;

/// 2^29: the binary64 fraction has 29 bits more than the binary32 fraction.
pub const SINGLE_SCALE: u64 = 0x2000_0000;

/// 2^52: the weight of the exponent field of a binary64 pattern.
pub const EXPONENT_UNIT: u64 = 0x10_0000_0000_0000;

/// 2^63: the sign bit of a binary64 pattern.
pub const SIGN_BIT: u64 = 0x8000_0000_0000_0000;

/// The binary64 pattern of positive infinity.
pub const INFINITY: u64 = 0x7ff0_0000_0000_0000;

/// Whether a binary64 pattern is a NaN.
pub open spec fn is_nan(bits: u64) -> bool {
    bits % SIGN_BIT > INFINITY
}

/// The binary64 pattern, without sign, of the subnormal binary16 number
/// whose significand is `sig`, found by doubling the significand until its
/// leading bit reaches the hidden place; `exponent` is the binary64 exponent
/// field that goes with `sig` before any doubling.
pub open spec fn grow_half(sig: int, exponent: int) -> int
    decreases 0x800 - sig,
{
    if sig <= 0 || sig >= 0x400 || exponent <= 998 {
        (exponent - 1) * EXPONENT_UNIT + sig * HALF_SCALE
    } else {
        grow_half(2 * sig, exponent - 1)
    }
}

/// The binary64 pattern, without sign, of the subnormal binary32 number
/// whose significand is `sig`; see `grow_half`.
pub open spec fn grow_single(sig: int, exponent: int) -> int
    decreases 0x100_0000 - sig,
{
    if sig <= 0 || sig >= 0x80_0000 || exponent <= 873 {
        (exponent - 1) * EXPONENT_UNIT + sig * SINGLE_SCALE
    } else {
        grow_single(2 * sig, exponent - 1)
    }
}

/// The binary64 pattern of the number that a binary16 pattern stands for.
/// A NaN keeps its sign and payload and becomes quiet.
pub open spec fn half_to_double(h: u16) -> u64 {
    let sign = (h / 0x8000) as int;
    let exponent = ((h / 0x400) % 0x20) as int;
    let fraction = (h % 0x400) as int;
    let magnitude = if exponent == 0x1f {
        if fraction == 0 {
            INFINITY as int
        } else {
            INFINITY + (fraction % 0x200 + 0x200) * HALF_SCALE
        }
    } else if exponent == 0 {
        if fraction == 0 {
            0
        } else {
            grow_half(2 * fraction, 1008)
        }
    } else {
        (exponent + 1008) * EXPONENT_UNIT + fraction * HALF_SCALE
    };
    (sign * SIGN_BIT + magnitude) as u64
}

/// The binary64 pattern of the number that a binary32 pattern stands for.
/// A NaN keeps its sign and payload and becomes quiet.
pub open spec fn single_to_double(s: u32) -> u64 {
    let sign = (s / 0x8000_0000) as int;
    let exponent = ((s / 0x80_0000) % 0x100) as int;
    let fraction = (s % 0x80_0000) as int;
    let magnitude = if exponent == 0xff {
        if fraction == 0 {
            INFINITY as int
        } else {
            INFINITY + (fraction % 0x40_0000 + 0x40_0000) * SINGLE_SCALE
        }
    } else if exponent == 0 {
        if fraction == 0 {
            0
        } else {
            grow_single(2 * fraction, 896)
        }
    } else {
        (exponent + 896) * EXPONENT_UNIT + fraction * SINGLE_SCALE
    };
    (sign * SIGN_BIT + magnitude) as u64
}

/// `sig` halved once for each step that `exponent` is below `target`.
pub open spec fn shrink(sig: int, exponent: int, target: int) -> int
    decreases target - exponent,
{
    if exponent >= target {
        sig
    } else {
        shrink(sig / 2, exponent + 1, target)
    }
}

/// The one binary16 pattern that could stand for what a binary64 pattern
/// stands for: its fraction cut to ten bits, not rounded; the payload of a
/// NaN cut likewise.
pub open spec fn half_candidate(bits: u64) -> u16 {
    let sign = (bits / SIGN_BIT) as int;
    let exponent = ((bits / EXPONENT_UNIT) % 0x800) as int;
    let fraction = ((bits % EXPONENT_UNIT) / HALF_SCALE) as int;
    let magnitude = if exponent == 0x7ff {
        0x7c00 + fraction
    } else if exponent > 1038 {
        0x7bff
    } else if exponent > 1008 {
        (exponent - 1008) * 0x400 + fraction
    } else if exponent >= 998 {
        shrink(0x400 + fraction, exponent, 1009)
    } else {
        0
    };
    (sign * 0x8000 + magnitude) as u16
}

/// The one binary32 pattern that could stand for what a binary64 pattern
/// stands for: its fraction cut to 23 bits, not rounded; the payload of a
/// NaN cut likewise.
pub open spec fn single_candidate(bits: u64) -> u32 {
    let sign = (bits / SIGN_BIT) as int;
    let exponent = ((bits / EXPONENT_UNIT) % 0x800) as int;
    let fraction = ((bits % EXPONENT_UNIT) / SINGLE_SCALE) as int;
    let magnitude = if exponent == 0x7ff {
        0x7f80_0000 + fraction
    } else if exponent > 1150 {
        0x7f7f_ffff
    } else if exponent > 896 {
        (exponent - 896) * 0x80_0000 + fraction
    } else if exponent >= 873 {
        shrink(0x80_0000 + fraction, exponent, 897)
    } else {
        0
    };
    (sign * 0x8000_0000 + magnitude) as u32
}

/// The binary16 pattern that widens to a binary64 pattern, where there is
/// one: a number that binary16 holds exactly, an infinity, or a quiet NaN
/// whose payload binary16 holds.
pub open spec fn narrow_to_half(bits: u64) -> Option<u16> {
    if half_to_double(half_candidate(bits)) == bits {
        Some(half_candidate(bits))
    } else {
        None
    }
}

/// The binary32 pattern that widens to a binary64 pattern, where there is
/// one: a number that binary32 holds exactly, an infinity, or a quiet NaN
/// whose payload binary32 holds.
pub open spec fn narrow_to_single(bits: u64) -> Option<u32> {
    if single_to_double(single_candidate(bits)) == bits {
        Some(single_candidate(bits))
    } else {
        None
    }
}

proof fn grow_half_bounds(sig: int, exponent: int)
    requires
        0 < sig < 0x800,
        998 <= exponent <= 1008,
    ensures
        0 <= grow_half(sig, exponent) < 1010 * EXPONENT_UNIT,
    decreases 0x800 - sig,
{
    if !(sig >= 0x400 || exponent <= 998) {
        grow_half_bounds(2 * sig, exponent - 1);
    }
}

proof fn grow_single_bounds(sig: int, exponent: int)
    requires
        0 < sig < 0x100_0000,
        873 <= exponent <= 896,
    ensures
        0 <= grow_single(sig, exponent) < 898 * EXPONENT_UNIT,
    decreases 0x100_0000 - sig,
{
    if !(sig >= 0x80_0000 || exponent <= 873) {
        grow_single_bounds(2 * sig, exponent - 1);
    }
}

proof fn shrink_bounds(sig: int, exponent: int, target: int)
    requires
        0 <= sig,
    ensures
        0 <= shrink(sig, exponent, target) <= sig,
    decreases target - exponent,
{
    if exponent < target {
        shrink_bounds(sig / 2, exponent + 1, target);
    }
}

/// Widens a binary16 pattern to binary64.
pub fn widen_half(h: u16) -> (r: u64)
    ensures
        r == half_to_double(h),
{
    let sign: u64 = (h / 0x8000) as u64;
    let exponent: u64 = ((h / 0x400) % 0x20) as u64;
    let fraction: u64 = (h % 0x400) as u64;
    let magnitude: u64 = if exponent == 0x1f {
        if fraction == 0 {
            INFINITY
        } else {
            INFINITY + (fraction % 0x200 + 0x200) * HALF_SCALE
        }
    } else if exponent == 0 {
        if fraction == 0 {
            0
        } else {
            let mut sig: u64 = 2 * fraction;
            let mut e: u64 = 1008;
            while sig < 0x400 && e > 998
                invariant
                    0 < sig < 0x800,
                    998 <= e <= 1008,
                    grow_half(sig as int, e as int) == grow_half(2 * fraction, 1008),
                decreases 0x800 - sig,
            {
                sig = 2 * sig;
                e = e - 1;
            }
            (e - 1) * EXPONENT_UNIT + sig * HALF_SCALE
        }
    } else {
        (exponent + 1008) * EXPONENT_UNIT + fraction * HALF_SCALE
    };
    proof {
        if exponent == 0 && fraction != 0 {
            grow_half_bounds(2 * fraction, 1008);
        }
    }
    sign * SIGN_BIT + magnitude
}

/// Widens a binary32 pattern to binary64.
pub fn widen_single(s: u32) -> (r: u64)
    ensures
        r == single_to_double(s),
{
    let sign: u64 = (s / 0x8000_0000) as u64;
    let exponent: u64 = ((s / 0x80_0000) % 0x100) as u64;
    let fraction: u64 = (s % 0x80_0000) as u64;
    let magnitude: u64 = if exponent == 0xff {
        if fraction == 0 {
            INFINITY
        } else {
            INFINITY + (fraction % 0x40_0000 + 0x40_0000) * SINGLE_SCALE
        }
    } else if exponent == 0 {
        if fraction == 0 {
            0
        } else {
            let mut sig: u64 = 2 * fraction;
            let mut e: u64 = 896;
            while sig < 0x80_0000 && e > 873
                invariant
                    0 < sig < 0x100_0000,
                    873 <= e <= 896,
                    grow_single(sig as int, e as int) == grow_single(2 * fraction, 896),
                decreases 0x100_0000 - sig,
            {
                sig = 2 * sig;
                e = e - 1;
            }
            (e - 1) * EXPONENT_UNIT + sig * SINGLE_SCALE
        }
    } else {
        (exponent + 896) * EXPONENT_UNIT + fraction * SINGLE_SCALE
    };
    proof {
        if exponent == 0 && fraction != 0 {
            grow_single_bounds(2 * fraction, 896);
        }
    }
    sign * SIGN_BIT + magnitude
}

/// Narrows a binary64 pattern to binary16 where that loses nothing.
pub fn narrow_half(bits: u64) -> (r: Option<u16>)
    ensures
        r == narrow_to_half(bits),
{
    let sign: u64 = bits / SIGN_BIT;
    let exponent: u64 = (bits / EXPONENT_UNIT) % 0x800;
    let fraction: u64 = (bits % EXPONENT_UNIT) / HALF_SCALE;
    let magnitude: u64 = if exponent == 0x7ff {
        0x7c00 + fraction
    } else if exponent > 1038 {
        0x7bff
    } else if exponent > 1008 {
        (exponent - 1008) * 0x400 + fraction
    } else if exponent >= 998 {
        let mut sig: u64 = 0x400 + fraction;
        let mut e: u64 = exponent;
        proof {
            shrink_bounds(0x400 + fraction, exponent as int, 1009);
        }
        while e < 1009
            invariant
                e <= 1009,
                sig < 0x800,
                shrink(sig as int, e as int, 1009) == shrink(0x400 + fraction, exponent as int, 1009),
            decreases 1009 - e,
        {
            sig = sig / 2;
            e = e + 1;
        }
        sig
    } else {
        0
    };
    let candidate: u16 = (sign * 0x8000 + magnitude) as u16;
    if widen_half(candidate) == bits {
        Some(candidate)
    } else {
        None
    }
}

/// Narrows a binary64 pattern to binary32 where that loses nothing.
pub fn narrow_single(bits: u64) -> (r: Option<u32>)
    ensures
        r == narrow_to_single(bits),
{
    let sign: u64 = bits / SIGN_BIT;
    let exponent: u64 = (bits / EXPONENT_UNIT) % 0x800;
    let fraction: u64 = (bits % EXPONENT_UNIT) / SINGLE_SCALE;
    let magnitude: u64 = if exponent == 0x7ff {
        0x7f80_0000 + fraction
    } else if exponent > 1150 {
        0x7f7f_ffff
    } else if exponent > 896 {
        (exponent - 896) * 0x80_0000 + fraction
    } else if exponent >= 873 {
        let mut sig: u64 = 0x80_0000 + fraction;
        let mut e: u64 = exponent;
        proof {
            shrink_bounds(0x80_0000 + fraction, exponent as int, 897);
        }
        while e < 897
            invariant
                e <= 897,
                sig < 0x100_0000,
                shrink(sig as int, e as int, 897) == shrink(
                    0x80_0000 + fraction,
                    exponent as int,
                    897,
                ),
            decreases 897 - e,
        {
            sig = sig / 2;
            e = e + 1;
        }
        sig
    } else {
        0
    };
    let candidate: u32 = (sign * 0x8000_0000 + magnitude) as u32;
    if widen_single(candidate) == bits {
        Some(candidate)
    } else {
        None
    }
}

/// Two to the power `n`.
pub open spec fn power_of_two(n: nat) -> nat
    decreases n,
{
    if n == 0 {
        1
    } else {
        2 * power_of_two((n - 1) as nat)
    }
}

/// A binary64 pattern without sign, made of an exponent field and a
/// fraction of the width of binary16, gives both back.
proof fn half_fields(exponent: int, fraction: int)
    requires
        0 <= exponent < 0x800,
        0 <= fraction < 0x400,
    ensures
        (exponent * EXPONENT_UNIT + fraction * HALF_SCALE) / (EXPONENT_UNIT as int) == exponent,
        ((exponent * EXPONENT_UNIT + fraction * HALF_SCALE) % (EXPONENT_UNIT as int)) / (
        HALF_SCALE as int) == fraction,
        0 <= exponent * EXPONENT_UNIT + fraction * HALF_SCALE < SIGN_BIT,
{
}

/// The doubling of a binary16 significand ends with its leading bit in the
/// hidden place, and halving undoes it.
proof fn grow_half_is_undone(sig: int, exponent: int) -> (r: (int, int))
    requires
        0 < sig < 0x800,
        998 <= exponent <= 1008,
        sig * power_of_two((exponent - 998) as nat) >= 0x400,
    ensures
        998 <= r.0 <= 1008,
        0 <= r.1 < 0x400,
        grow_half(sig, exponent) == r.0 * EXPONENT_UNIT + r.1 * HALF_SCALE,
        shrink(0x400 + r.1, r.0, 1009) == shrink(sig, exponent, 1009),
    decreases 0x800 - sig,
{
    if sig >= 0x400 {
        assert(grow_half(sig, exponent) == exponent * EXPONENT_UNIT + (sig - 0x400) * HALF_SCALE);
        (exponent, sig - 0x400)
    } else if exponent <= 998 {
        let p = power_of_two((exponent - 998) as nat);
        assert(p == 1);
        assert(sig * p == sig) by (nonlinear_arith)
            requires
                p == 1,
        ;
        (0, 0)
    } else {
        let k = (exponent - 998) as nat;
        let p = power_of_two((k - 1) as nat);
        assert(power_of_two(k) == 2 * p);
        assert((2 * sig) * p == sig * (2 * p)) by (nonlinear_arith);
        let r = grow_half_is_undone(2 * sig, exponent - 1);
        assert(shrink(2 * sig, exponent - 1, 1009) == shrink((2 * sig) / 2, exponent, 1009));
        r
    }
}

/// A binary16 pattern with its NaN made quiet: every other pattern as it is.
pub open spec fn quiet_half(h: u16) -> u16 {
    if (h / 0x400) % 0x20 == 0x1f && h % 0x400 != 0 {
        ((h / 0x400) * 0x400 + (h % 0x200) + 0x200) as u16
    } else {
        h
    }
}

/// A binary32 pattern with its NaN made quiet: every other pattern as it is.
pub open spec fn quiet_single(s: u32) -> u32 {
    if (s / 0x80_0000) % 0x100 == 0xff && s % 0x80_0000 != 0 {
        ((s / 0x80_0000) * 0x80_0000 + (s % 0x40_0000) + 0x40_0000) as u32
    } else {
        s
    }
}

/// What binary16 holds is narrowed back to its own pattern, a NaN to its
/// quiet pattern: it is never written in a longer form.
pub proof fn half_is_narrowed_back(h: u16)
    ensures
        narrow_to_half(half_to_double(h)) == Some(quiet_half(h)),
{
    let sign = (h / 0x8000) as int;
    let exponent = ((h / 0x400) % 0x20) as int;
    let fraction = (h % 0x400) as int;
    let bits = half_to_double(h);
    assert(h == sign * 0x8000 + exponent * 0x400 + fraction);
    if exponent == 0x1f {
        let q = if fraction == 0 {
            0
        } else {
            fraction % 0x200 + 0x200
        };
        half_fields(0x7ff, q);
        assert(bits == sign * SIGN_BIT + 0x7ff * EXPONENT_UNIT + q * HALF_SCALE);
        narrowing_of_parts(bits, sign, 0x7ff, q);
        let c = half_candidate(bits);
        assert(c == sign * 0x8000 + 0x7c00 + q);
        assert(c == quiet_half(h));
        assert(c / 0x8000 == sign);
        assert((c / 0x400) % 0x20 == 0x1f);
        assert(c % 0x400 == q);
        assert(half_to_double(c) == bits);
    } else if exponent == 0 {
        if fraction == 0 {
            half_fields(0, 0);
            assert(bits == sign * SIGN_BIT + 0 * EXPONENT_UNIT + 0 * HALF_SCALE);
            narrowing_of_parts(bits, sign, 0, 0);
        } else {
            reveal_with_fuel(power_of_two, 11);
            assert(power_of_two(10) == 1024);
            assert((2 * fraction) * power_of_two(10) >= 0x400);
            let r = grow_half_is_undone(2 * fraction, 1008);
            half_fields(r.0, r.1);
            assert(bits == sign * SIGN_BIT + r.0 * EXPONENT_UNIT + r.1 * HALF_SCALE);
            narrowing_of_parts(bits, sign, r.0, r.1);
            assert(shrink(2 * fraction, 1008, 1009) == shrink(fraction, 1009, 1009));
        }
    } else {
        half_fields(exponent + 1008, fraction);
        assert(bits == sign * SIGN_BIT + (exponent + 1008) * EXPONENT_UNIT + fraction * HALF_SCALE);
        narrowing_of_parts(bits, sign, exponent + 1008, fraction);
    }
}

/// The candidate of a pattern made of a sign, an exponent field and a
/// fraction of the width of binary16.
proof fn narrowing_of_parts(bits: u64, sign: int, exponent: int, fraction: int)
    requires
        0 <= sign <= 1,
        0 <= exponent < 0x800,
        0 <= fraction < 0x400,
        bits == sign * SIGN_BIT + exponent * EXPONENT_UNIT + fraction * HALF_SCALE,
    ensures
        bits / SIGN_BIT == sign,
        (bits / EXPONENT_UNIT) % 0x800 == exponent,
        (bits % EXPONENT_UNIT) / HALF_SCALE == fraction,
        bits % SIGN_BIT == exponent * EXPONENT_UNIT + fraction * HALF_SCALE,
{
    half_fields(exponent, fraction);
}

/// A binary64 pattern without sign, made of an exponent field and a
/// fraction of the width of binary32, gives both back.
proof fn single_fields(exponent: int, fraction: int)
    requires
        0 <= exponent < 0x800,
        0 <= fraction < 0x80_0000,
    ensures
        (exponent * EXPONENT_UNIT + fraction * SINGLE_SCALE) / (EXPONENT_UNIT as int) == exponent,
        ((exponent * EXPONENT_UNIT + fraction * SINGLE_SCALE) % (EXPONENT_UNIT as int)) / (
        SINGLE_SCALE as int) == fraction,
        0 <= exponent * EXPONENT_UNIT + fraction * SINGLE_SCALE < SIGN_BIT,
{
}

/// The doubling of a binary32 significand ends with its leading bit in the
/// hidden place, and halving undoes it.
proof fn grow_single_is_undone(sig: int, exponent: int) -> (r: (int, int))
    requires
        0 < sig < 0x100_0000,
        873 <= exponent <= 896,
        sig * power_of_two((exponent - 873) as nat) >= 0x80_0000,
    ensures
        873 <= r.0 <= 896,
        0 <= r.1 < 0x80_0000,
        grow_single(sig, exponent) == r.0 * EXPONENT_UNIT + r.1 * SINGLE_SCALE,
        shrink(0x80_0000 + r.1, r.0, 897) == shrink(sig, exponent, 897),
    decreases 0x100_0000 - sig,
{
    if sig >= 0x80_0000 {
        assert(grow_single(sig, exponent) == exponent * EXPONENT_UNIT + (sig - 0x80_0000)
            * SINGLE_SCALE);
        (exponent, sig - 0x80_0000)
    } else if exponent <= 873 {
        let p = power_of_two((exponent - 873) as nat);
        assert(p == 1);
        assert(sig * p == sig) by (nonlinear_arith)
            requires
                p == 1,
        ;
        (0, 0)
    } else {
        let k = (exponent - 873) as nat;
        let p = power_of_two((k - 1) as nat);
        assert(power_of_two(k) == 2 * p);
        assert((2 * sig) * p == sig * (2 * p)) by (nonlinear_arith);
        let r = grow_single_is_undone(2 * sig, exponent - 1);
        assert(shrink(2 * sig, exponent - 1, 897) == shrink((2 * sig) / 2, exponent, 897));
        r
    }
}

/// The fields of a pattern made of a sign, an exponent field and a
/// fraction of the width of binary32.
proof fn single_parts(bits: u64, sign: int, exponent: int, fraction: int)
    requires
        0 <= sign <= 1,
        0 <= exponent < 0x800,
        0 <= fraction < 0x80_0000,
        bits == sign * SIGN_BIT + exponent * EXPONENT_UNIT + fraction * SINGLE_SCALE,
    ensures
        bits / SIGN_BIT == sign,
        (bits / EXPONENT_UNIT) % 0x800 == exponent,
        (bits % EXPONENT_UNIT) / SINGLE_SCALE == fraction,
        bits % SIGN_BIT == exponent * EXPONENT_UNIT + fraction * SINGLE_SCALE,
{
    single_fields(exponent, fraction);
}

/// What binary32 holds is narrowed back to its own pattern, a NaN to its
/// quiet pattern: it is never written in binary64.
pub proof fn single_is_narrowed_back(s: u32)
    ensures
        narrow_to_single(single_to_double(s)) == Some(quiet_single(s)),
{
    let sign = (s / 0x8000_0000) as int;
    let exponent = ((s / 0x80_0000) % 0x100) as int;
    let fraction = (s % 0x80_0000) as int;
    let bits = single_to_double(s);
    assert(s == sign * 0x8000_0000 + exponent * 0x80_0000 + fraction);
    if exponent == 0xff {
        let q = if fraction == 0 {
            0
        } else {
            fraction % 0x40_0000 + 0x40_0000
        };
        assert(bits == sign * SIGN_BIT + 0x7ff * EXPONENT_UNIT + q * SINGLE_SCALE);
        single_parts(bits, sign, 0x7ff, q);
        let c = single_candidate(bits);
        assert(c == sign * 0x8000_0000 + 0x7f80_0000 + q);
        assert(c == quiet_single(s));
        assert(c / 0x8000_0000 == sign);
        assert((c / 0x80_0000) % 0x100 == 0xff);
        assert(c % 0x80_0000 == q);
        assert(single_to_double(c) == bits);
    } else if exponent == 0 {
        if fraction == 0 {
            assert(bits == sign * SIGN_BIT + 0 * EXPONENT_UNIT + 0 * SINGLE_SCALE);
            single_parts(bits, sign, 0, 0);
        } else {
            reveal_with_fuel(power_of_two, 24);
            assert(power_of_two(23) == 0x80_0000);
            assert((2 * fraction) * power_of_two(23) >= 0x80_0000);
            let r = grow_single_is_undone(2 * fraction, 896);
            single_fields(r.0, r.1);
            assert(bits == sign * SIGN_BIT + r.0 * EXPONENT_UNIT + r.1 * SINGLE_SCALE);
            single_parts(bits, sign, r.0, r.1);
            assert(shrink(2 * fraction, 896, 897) == shrink(fraction, 897, 897));
        }
    } else {
        assert(bits == sign * SIGN_BIT + (exponent + 896) * EXPONENT_UNIT + fraction * SINGLE_SCALE);
        single_parts(bits, sign, exponent + 896, fraction);
    }
}

/// A number that narrows to binary16 widens back to itself.
pub proof fn half_narrowing_is_exact(bits: u64, h: u16)
    requires
        narrow_to_half(bits) == Some(h),
    ensures
        half_to_double(h) == bits,
{
}

/// A number that narrows to binary32 widens back to itself.
pub proof fn single_narrowing_is_exact(bits: u64, s: u32)
    requires
        narrow_to_single(bits) == Some(s),
    ensures
        single_to_double(s) == bits,
{
}

} // verus!
