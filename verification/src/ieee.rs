//! Conversion between the bit patterns of IEEE 754 numbers of double and of
//! single precision.
//!
//! The engine carries a real number as the 64 bits of its double precision
//! form and stores a column of single precision numbers as 32 bits each.
//! Widening is exact. Narrowing rounds to the nearest single precision
//! number, to the one with an even last bit where two are equally near, and
//! gives an infinity where the number is too large.

use vstd::prelude::*;

verus! {

/// The position of the highest bit that is set in `m`, and 0 for 0.
pub open spec fn top_bit(m: u32) -> nat
    decreases m,
{
    if m <= 1 {
        0
    } else {
        1 + top_bit(m / 2)
    }
}

/// The double precision form of a single precision number that is not
/// subnormal: a normal number, a zero, an infinity or a NaN.
pub open spec fn widen_plain(v: u32) -> u64 {
    let sign = ((v >> 31) as u64) << 63;
    let e = (v >> 23) & 0xff;
    let m = (v & 0x7f_ffff) as u64;
    if e == 0xff {
        if m == 0 {
            sign | 0x7ff0_0000_0000_0000
        } else {
            sign | 0x7ff8_0000_0000_0000 | (m << 29)
        }
    } else if e == 0 {
        sign
    } else {
        sign | (((e + 896) as u64) << 52) | (m << 29)
    }
}

/// The double precision form of a subnormal single precision number whose
/// highest set bit is at position `p`.
pub open spec fn widen_subnormal(v: u32, p: u32) -> u64 {
    let sign = ((v >> 31) as u64) << 63;
    let m = (v & 0x7f_ffff) as u64;
    sign | (((p + 874) as u64) << 52) | ((m << ((52 - p) as u64)) & 0xf_ffff_ffff_ffff)
}

/// Whether `v` is a subnormal single precision number.
pub open spec fn is_subnormal(v: u32) -> bool {
    (v >> 23) & 0xff == 0 && v & 0x7f_ffff != 0
}

/// Whether `v` is a single precision NaN.
pub open spec fn is_nan(v: u32) -> bool {
    (v >> 23) & 0xff == 0xff && v & 0x7f_ffff != 0
}

/// The double precision number with the value of the single precision
/// number `v`.
pub open spec fn spec_widen(v: u32) -> u64 {
    if is_subnormal(v) {
        widen_subnormal(v, top_bit(v & 0x7f_ffff) as u32)
    } else {
        widen_plain(v)
    }
}

/// `base`, or the number after it where the bits that were cut off, `rem`,
/// are more than `half`, or are `half` and `base` is odd.
pub open spec fn round_even(base: u32, rem: u64, half: u64) -> u32 {
    if rem > half || (rem == half && base & 1 == 1) {
        (base + 1) as u32
    } else {
        base
    }
}

/// The single precision number nearest to the double precision number `x`.
pub open spec fn spec_narrow(x: u64) -> u32 {
    let sign = ((x >> 63) as u32) << 31;
    let e = (x >> 52) & 0x7ff;
    let m = x & 0xf_ffff_ffff_ffff;
    if e == 0x7ff {
        if m == 0 {
            sign | 0x7f80_0000
        } else {
            sign | 0x7fc0_0000 | ((m >> 29) as u32)
        }
    } else if e >= 1151 {
        sign | 0x7f80_0000
    } else if e >= 897 {
        let base = (((e - 896) as u32) << 23) | ((m >> 29) as u32);
        sign | round_even(base, m & 0x1fff_ffff, 0x1000_0000)
    } else if e >= 872 {
        let full = m | 0x10_0000_0000_0000;
        let shift = (926 - e) as u64;
        let base = (full >> shift) as u32;
        sign | round_even(base, full & ((1u64 << shift) - 1) as u64, 1u64 << ((shift - 1) as u64))
    } else {
        sign
    }
}

/// The highest set bit of a number that is not 0 is its last bit that a
/// shift to the right leaves.
pub proof fn lemma_top_bit(m: u32)
    ensures
        top_bit(m) < 32,
        m != 0 ==> m >> (top_bit(m) as u32) == 1,
    decreases m,
{
    if m <= 1 {
        assert(1u32 >> 0u32 == 1) by (bit_vector);
    } else {
        let h = m / 2;
        lemma_top_bit(h);
        let t = top_bit(h) as u32;
        assert(t < 31 && m >> ((t + 1) as u32) == 1) by (bit_vector)
            requires
                h == m / 2,
                h >> t == 1,
                t < 32,
        ;
    }
}

/// A single precision number that is widened and narrowed again is the
/// number it was, unless it is a NaN.
pub proof fn lemma_narrow_widen(v: u32)
    requires
        !is_nan(v),
    ensures
        spec_narrow(spec_widen(v)) == v,
{
    if is_subnormal(v) {
        let m = v & 0x7f_ffff;
        lemma_top_bit(m);
        let p = top_bit(m) as u32;
        assert(p <= 22) by (bit_vector)
            requires
                m >> p == 1,
                p < 32,
                m == v & 0x7f_ffff,
        ;
        assert(spec_narrow(widen_subnormal(v, p)) == v) by (bit_vector)
            requires
                is_subnormal(v),
                p <= 22,
                (v & 0x7f_ffff) >> p == 1,
        ;
    } else {
        assert(spec_narrow(widen_plain(v)) == v) by (bit_vector)
            requires
                !is_nan(v),
                !is_subnormal(v),
        ;
    }
}

/// The position of the highest bit that is set in `m`.
fn highest_bit(m: u32) -> (p: u32)
    requires
        m != 0,
    ensures
        p == top_bit(m),
        p < 32,
        m >> p == 1,
{
    proof {
        lemma_top_bit(m);
    }
    let mut p: u32 = 0;
    let mut rest: u32 = m;
    while rest > 1
        invariant
            rest != 0,
            p + top_bit(rest) == top_bit(m),
            top_bit(m) < 32,
        decreases rest,
    {
        rest = rest / 2;
        p = p + 1;
    }
    p
}

/// The double precision number with the value of the single precision
/// number `v`.
pub fn widen(v: u32) -> (x: u64)
    ensures
        x == spec_widen(v),
{
    let sign: u64 = ((v >> 31) as u64) << 63;
    let e: u32 = (v >> 23) & 0xff;
    let m: u64 = (v & 0x7f_ffff) as u64;
    assert((v >> 23) & 0xff <= 0xff) by (bit_vector);
    if e == 0xff {
        if m == 0 {
            sign | 0x7ff0_0000_0000_0000
        } else {
            sign | 0x7ff8_0000_0000_0000 | (m << 29)
        }
    } else if e == 0 {
        if m == 0 {
            sign
        } else {
            let p: u32 = highest_bit(v & 0x7f_ffff);
            assert(p <= 22) by (bit_vector)
                requires
                    (v & 0x7f_ffff) >> p == 1,
                    p < 32,
            ;
            sign | (((p + 874) as u64) << 52) | ((m << ((52 - p) as u64)) & 0xf_ffff_ffff_ffff)
        }
    } else {
        sign | (((e + 896) as u64) << 52) | (m << 29)
    }
}

/// `base`, or the number after it: see [`round_even`].
fn round(base: u32, rem: u64, half: u64) -> (r: u32)
    requires
        base < 0x7fff_ffff,
    ensures
        r == round_even(base, rem, half),
{
    if rem > half || (rem == half && base & 1 == 1) {
        base + 1
    } else {
        base
    }
}

/// The single precision number nearest to the double precision number `x`.
pub fn narrow(x: u64) -> (v: u32)
    ensures
        v == spec_narrow(x),
{
    assert((x >> 63) <= 1 && (x >> 52) & 0x7ff <= 0x7ff && (x & 0xf_ffff_ffff_ffff) >> 29
        <= 0x7f_ffff) by (bit_vector);
    let sign: u32 = ((x >> 63) as u32) << 31;
    let e: u64 = (x >> 52) & 0x7ff;
    let m: u64 = x & 0xf_ffff_ffff_ffff;
    if e == 0x7ff {
        if m == 0 {
            sign | 0x7f80_0000
        } else {
            sign | 0x7fc0_0000 | ((m >> 29) as u32)
        }
    } else if e >= 1151 {
        sign | 0x7f80_0000
    } else if e >= 897 {
        let base: u32 = (((e - 896) as u32) << 23) | ((m >> 29) as u32);
        assert(base < 0x7f80_0000) by (bit_vector)
            requires
                897 <= e < 1151,
                m == x & 0xf_ffff_ffff_ffff,
                base == (((e - 896) as u32) << 23) | ((m >> 29) as u32),
        ;
        sign | round(base, m & 0x1fff_ffff, 0x1000_0000)
    } else if e >= 872 {
        let full: u64 = m | 0x10_0000_0000_0000;
        let shift: u64 = 926 - e;
        assert(full >> shift < 0x80_0000 && (1u64 << shift) >= 1) by (bit_vector)
            requires
                30 <= shift <= 54,
                m == x & 0xf_ffff_ffff_ffff,
                full == m | 0x10_0000_0000_0000,
        ;
        let base: u32 = (full >> shift) as u32;
        sign | round(base, full & ((1u64 << shift) - 1), 1u64 << (shift - 1))
    } else {
        sign
    }
}

} // verus!
