//! Conversions between the bit patterns of IEEE 754 binary16, binary32 and
//! binary64 floats.
//!
//! All floats in this crate are carried as their bit patterns in unsigned
//! integers, so the conversions are defined here as pure integer functions.
//! Promotion widens exactly; a quiet NaN bit is forced on promotion of a NaN,
//! as hardware float conversions do. Demotion succeeds only when promoting
//! the demoted value restores the original bit pattern exactly, which is the
//! width-selection rule for encoding floats: narrow only when lossless on the
//! bit level.

use vstd::prelude::*;

verus! {

/// The binary64 pattern denoting a binary16 value with sign `s`, exponent
/// field `e` and mantissa field `m`.
#[verifier::opaque]
pub open spec fn spec_f16_parts_to_f64(s: int, e: int, m: int) -> int {
    if e == 0x1f {
        if m == 0 {
            s * 0x8000000000000000 + 0x7ff * 0x10000000000000
        } else if m >= 0x200 {
            s * 0x8000000000000000 + 0x7ff * 0x10000000000000 + m * 0x40000000000
        } else {
            s * 0x8000000000000000 + 0x7ff * 0x10000000000000 + (m + 0x200) * 0x40000000000
        }
    } else if e == 0 {
        if m >= 0x200 {
            s * 0x8000000000000000 + 1008 * 0x10000000000000 + (m - 0x200) * 0x80000000000
        } else if m >= 0x100 {
            s * 0x8000000000000000 + 1007 * 0x10000000000000 + (m - 0x100) * 0x100000000000
        } else if m >= 0x80 {
            s * 0x8000000000000000 + 1006 * 0x10000000000000 + (m - 0x80) * 0x200000000000
        } else if m >= 0x40 {
            s * 0x8000000000000000 + 1005 * 0x10000000000000 + (m - 0x40) * 0x400000000000
        } else if m >= 0x20 {
            s * 0x8000000000000000 + 1004 * 0x10000000000000 + (m - 0x20) * 0x800000000000
        } else if m >= 0x10 {
            s * 0x8000000000000000 + 1003 * 0x10000000000000 + (m - 0x10) * 0x1000000000000
        } else if m >= 0x8 {
            s * 0x8000000000000000 + 1002 * 0x10000000000000 + (m - 0x8) * 0x2000000000000
        } else if m >= 0x4 {
            s * 0x8000000000000000 + 1001 * 0x10000000000000 + (m - 0x4) * 0x4000000000000
        } else if m >= 0x2 {
            s * 0x8000000000000000 + 1000 * 0x10000000000000 + (m - 0x2) * 0x8000000000000
        } else if m == 1 {
            s * 0x8000000000000000 + 999 * 0x10000000000000
        } else {
            s * 0x8000000000000000
        }
    } else {
        s * 0x8000000000000000 + (e + 1008) * 0x10000000000000 + m * 0x40000000000
    }
}

/// The binary64 pattern that a binary16 pattern promotes to.
pub open spec fn spec_f16_to_f64(h: u16) -> u64 {
    spec_f16_parts_to_f64((h as int) / 0x8000, ((h as int) / 0x400) % 0x20, (h as int) % 0x400)
        as u64
}

/// The binary64 pattern denoting a binary32 value with sign `s`, exponent
/// field `e` and mantissa field `m`.
#[verifier::opaque]
pub open spec fn spec_f32_parts_to_f64(s: int, e: int, m: int) -> int {
    if e == 0xff {
        if m == 0 {
            s * 0x8000000000000000 + 0x7ff * 0x10000000000000
        } else if m >= 0x400000 {
            s * 0x8000000000000000 + 0x7ff * 0x10000000000000 + m * 0x20000000
        } else {
            s * 0x8000000000000000 + 0x7ff * 0x10000000000000 + (m + 0x400000) * 0x20000000
        }
    } else if e == 0 {
        if m >= 0x400000 {
            s * 0x8000000000000000 + 896 * 0x10000000000000 + (m - 0x400000) * 0x40000000
        } else if m >= 0x200000 {
            s * 0x8000000000000000 + 895 * 0x10000000000000 + (m - 0x200000) * 0x80000000
        } else if m >= 0x100000 {
            s * 0x8000000000000000 + 894 * 0x10000000000000 + (m - 0x100000) * 0x100000000
        } else if m >= 0x80000 {
            s * 0x8000000000000000 + 893 * 0x10000000000000 + (m - 0x80000) * 0x200000000
        } else if m >= 0x40000 {
            s * 0x8000000000000000 + 892 * 0x10000000000000 + (m - 0x40000) * 0x400000000
        } else if m >= 0x20000 {
            s * 0x8000000000000000 + 891 * 0x10000000000000 + (m - 0x20000) * 0x800000000
        } else if m >= 0x10000 {
            s * 0x8000000000000000 + 890 * 0x10000000000000 + (m - 0x10000) * 0x1000000000
        } else if m >= 0x8000 {
            s * 0x8000000000000000 + 889 * 0x10000000000000 + (m - 0x8000) * 0x2000000000
        } else if m >= 0x4000 {
            s * 0x8000000000000000 + 888 * 0x10000000000000 + (m - 0x4000) * 0x4000000000
        } else if m >= 0x2000 {
            s * 0x8000000000000000 + 887 * 0x10000000000000 + (m - 0x2000) * 0x8000000000
        } else if m >= 0x1000 {
            s * 0x8000000000000000 + 886 * 0x10000000000000 + (m - 0x1000) * 0x10000000000
        } else if m >= 0x800 {
            s * 0x8000000000000000 + 885 * 0x10000000000000 + (m - 0x800) * 0x20000000000
        } else if m >= 0x400 {
            s * 0x8000000000000000 + 884 * 0x10000000000000 + (m - 0x400) * 0x40000000000
        } else if m >= 0x200 {
            s * 0x8000000000000000 + 883 * 0x10000000000000 + (m - 0x200) * 0x80000000000
        } else if m >= 0x100 {
            s * 0x8000000000000000 + 882 * 0x10000000000000 + (m - 0x100) * 0x100000000000
        } else if m >= 0x80 {
            s * 0x8000000000000000 + 881 * 0x10000000000000 + (m - 0x80) * 0x200000000000
        } else if m >= 0x40 {
            s * 0x8000000000000000 + 880 * 0x10000000000000 + (m - 0x40) * 0x400000000000
        } else if m >= 0x20 {
            s * 0x8000000000000000 + 879 * 0x10000000000000 + (m - 0x20) * 0x800000000000
        } else if m >= 0x10 {
            s * 0x8000000000000000 + 878 * 0x10000000000000 + (m - 0x10) * 0x1000000000000
        } else if m >= 0x8 {
            s * 0x8000000000000000 + 877 * 0x10000000000000 + (m - 0x8) * 0x2000000000000
        } else if m >= 0x4 {
            s * 0x8000000000000000 + 876 * 0x10000000000000 + (m - 0x4) * 0x4000000000000
        } else if m >= 0x2 {
            s * 0x8000000000000000 + 875 * 0x10000000000000 + (m - 0x2) * 0x8000000000000
        } else if m == 1 {
            s * 0x8000000000000000 + 874 * 0x10000000000000
        } else {
            s * 0x8000000000000000
        }
    } else {
        s * 0x8000000000000000 + (e + 896) * 0x10000000000000 + m * 0x20000000
    }
}

/// The binary64 pattern that a binary32 pattern promotes to.
pub open spec fn spec_f32_to_f64(w: u32) -> u64 {
    spec_f32_parts_to_f64(
        (w as int) / 0x80000000,
        ((w as int) / 0x800000) % 0x100,
        (w as int) % 0x800000,
    ) as u64
}

/// The binary16 pattern that would denote the same value as the binary64
/// pattern with the given fields, were the value representable at that width.
#[verifier::opaque]
pub open spec fn spec_f64_parts_to_f16(s: int, e: int, m: int) -> int {
    if e == 0x7ff {
        s * 0x8000 + 0x7c00 + m / 0x40000000000
    } else if 1009 <= e && e <= 1038 {
        s * 0x8000 + (e - 1008) * 0x400 + m / 0x40000000000
    } else if e == 1008 {
        s * 0x8000 + (0x10000000000000 + m) / 0x80000000000
    } else if e == 1007 {
        s * 0x8000 + (0x10000000000000 + m) / 0x100000000000
    } else if e == 1006 {
        s * 0x8000 + (0x10000000000000 + m) / 0x200000000000
    } else if e == 1005 {
        s * 0x8000 + (0x10000000000000 + m) / 0x400000000000
    } else if e == 1004 {
        s * 0x8000 + (0x10000000000000 + m) / 0x800000000000
    } else if e == 1003 {
        s * 0x8000 + (0x10000000000000 + m) / 0x1000000000000
    } else if e == 1002 {
        s * 0x8000 + (0x10000000000000 + m) / 0x2000000000000
    } else if e == 1001 {
        s * 0x8000 + (0x10000000000000 + m) / 0x4000000000000
    } else if e == 1000 {
        s * 0x8000 + (0x10000000000000 + m) / 0x8000000000000
    } else if e == 999 {
        s * 0x8000 + (0x10000000000000 + m) / 0x10000000000000
    } else {
        s * 0x8000
    }
}

/// The candidate binary16 pattern for a binary64 one.
pub open spec fn spec_f64_to_f16_cand(bits: u64) -> u16 {
    spec_f64_parts_to_f16(
        (bits as int) / (0x8000000000000000 as int),
        ((bits as int) / (0x10000000000000 as int)) % 0x800,
        (bits as int) % (0x10000000000000 as int),
    ) as u16
}

/// The binary16 pattern denoting exactly the value of the binary64 pattern
/// `bits`, when one exists.
pub open spec fn spec_f64_to_f16(bits: u64) -> Option<u16> {
    let cand = spec_f64_to_f16_cand(bits);
    if spec_f16_to_f64(cand) == bits {
        Some(cand)
    } else {
        None
    }
}

/// The binary32 pattern that would denote the same value as the binary64
/// pattern with the given fields, were the value representable at that width.
#[verifier::opaque]
pub open spec fn spec_f64_parts_to_f32(s: int, e: int, m: int) -> int {
    if e == 0x7ff {
        s * 0x80000000 + 0x7f800000 + m / 0x20000000
    } else if 897 <= e && e <= 1150 {
        s * 0x80000000 + (e - 896) * 0x800000 + m / 0x20000000
    } else if e == 896 {
        s * 0x80000000 + (0x10000000000000 + m) / 0x40000000
    } else if e == 895 {
        s * 0x80000000 + (0x10000000000000 + m) / 0x80000000
    } else if e == 894 {
        s * 0x80000000 + (0x10000000000000 + m) / 0x100000000
    } else if e == 893 {
        s * 0x80000000 + (0x10000000000000 + m) / 0x200000000
    } else if e == 892 {
        s * 0x80000000 + (0x10000000000000 + m) / 0x400000000
    } else if e == 891 {
        s * 0x80000000 + (0x10000000000000 + m) / 0x800000000
    } else if e == 890 {
        s * 0x80000000 + (0x10000000000000 + m) / 0x1000000000
    } else if e == 889 {
        s * 0x80000000 + (0x10000000000000 + m) / 0x2000000000
    } else if e == 888 {
        s * 0x80000000 + (0x10000000000000 + m) / 0x4000000000
    } else if e == 887 {
        s * 0x80000000 + (0x10000000000000 + m) / 0x8000000000
    } else if e == 886 {
        s * 0x80000000 + (0x10000000000000 + m) / 0x10000000000
    } else if e == 885 {
        s * 0x80000000 + (0x10000000000000 + m) / 0x20000000000
    } else if e == 884 {
        s * 0x80000000 + (0x10000000000000 + m) / 0x40000000000
    } else if e == 883 {
        s * 0x80000000 + (0x10000000000000 + m) / 0x80000000000
    } else if e == 882 {
        s * 0x80000000 + (0x10000000000000 + m) / 0x100000000000
    } else if e == 881 {
        s * 0x80000000 + (0x10000000000000 + m) / 0x200000000000
    } else if e == 880 {
        s * 0x80000000 + (0x10000000000000 + m) / 0x400000000000
    } else if e == 879 {
        s * 0x80000000 + (0x10000000000000 + m) / 0x800000000000
    } else if e == 878 {
        s * 0x80000000 + (0x10000000000000 + m) / 0x1000000000000
    } else if e == 877 {
        s * 0x80000000 + (0x10000000000000 + m) / 0x2000000000000
    } else if e == 876 {
        s * 0x80000000 + (0x10000000000000 + m) / 0x4000000000000
    } else if e == 875 {
        s * 0x80000000 + (0x10000000000000 + m) / 0x8000000000000
    } else if e == 874 {
        s * 0x80000000 + (0x10000000000000 + m) / 0x10000000000000
    } else {
        s * 0x80000000
    }
}

/// The candidate binary32 pattern for a binary64 one.
pub open spec fn spec_f64_to_f32_cand(bits: u64) -> u32 {
    spec_f64_parts_to_f32(
        (bits as int) / (0x8000000000000000 as int),
        ((bits as int) / (0x10000000000000 as int)) % 0x800,
        (bits as int) % (0x10000000000000 as int),
    ) as u32
}

/// The binary32 pattern denoting exactly the value of the binary64 pattern
/// `bits`, when one exists.
pub open spec fn spec_f64_to_f32(bits: u64) -> Option<u32> {
    let cand = spec_f64_to_f32_cand(bits);
    if spec_f32_to_f64(cand) == bits {
        Some(cand)
    } else {
        None
    }
}

/// Promotes a binary16 bit pattern to the binary64 pattern of the same value.
pub fn f16_to_f64(h: u16) -> (r: u64)
    ensures
        r == spec_f16_to_f64(h),
{
    proof {
        reveal(spec_f16_parts_to_f64);
    }
    let s: u64 = (h / 0x8000) as u64;
    let e: u64 = ((h / 0x400) % 0x20) as u64;
    let m: u64 = (h % 0x400) as u64;
    if e == 0x1f {
        if m == 0 {
            s * 0x8000000000000000 + 0x7ff * 0x10000000000000
        } else if m >= 0x200 {
            s * 0x8000000000000000 + 0x7ff * 0x10000000000000 + m * 0x40000000000
        } else {
            s * 0x8000000000000000 + 0x7ff * 0x10000000000000 + (m + 0x200) * 0x40000000000
        }
    } else if e == 0 {
        if m >= 0x200 {
            s * 0x8000000000000000 + 1008 * 0x10000000000000 + (m - 0x200) * 0x80000000000
        } else if m >= 0x100 {
            s * 0x8000000000000000 + 1007 * 0x10000000000000 + (m - 0x100) * 0x100000000000
        } else if m >= 0x80 {
            s * 0x8000000000000000 + 1006 * 0x10000000000000 + (m - 0x80) * 0x200000000000
        } else if m >= 0x40 {
            s * 0x8000000000000000 + 1005 * 0x10000000000000 + (m - 0x40) * 0x400000000000
        } else if m >= 0x20 {
            s * 0x8000000000000000 + 1004 * 0x10000000000000 + (m - 0x20) * 0x800000000000
        } else if m >= 0x10 {
            s * 0x8000000000000000 + 1003 * 0x10000000000000 + (m - 0x10) * 0x1000000000000
        } else if m >= 0x8 {
            s * 0x8000000000000000 + 1002 * 0x10000000000000 + (m - 0x8) * 0x2000000000000
        } else if m >= 0x4 {
            s * 0x8000000000000000 + 1001 * 0x10000000000000 + (m - 0x4) * 0x4000000000000
        } else if m >= 0x2 {
            s * 0x8000000000000000 + 1000 * 0x10000000000000 + (m - 0x2) * 0x8000000000000
        } else if m == 1 {
            s * 0x8000000000000000 + 999 * 0x10000000000000
        } else {
            s * 0x8000000000000000
        }
    } else {
        s * 0x8000000000000000 + (e + 1008) * 0x10000000000000 + m * 0x40000000000
    }
}

/// Promotes a binary32 bit pattern to the binary64 pattern of the same value.
pub fn f32_to_f64(w: u32) -> (r: u64)
    ensures
        r == spec_f32_to_f64(w),
{
    proof {
        reveal(spec_f32_parts_to_f64);
    }
    let s: u64 = (w / 0x80000000) as u64;
    let e: u64 = ((w / 0x800000) % 0x100) as u64;
    let m: u64 = (w % 0x800000) as u64;
    if e == 0xff {
        if m == 0 {
            s * 0x8000000000000000 + 0x7ff * 0x10000000000000
        } else if m >= 0x400000 {
            s * 0x8000000000000000 + 0x7ff * 0x10000000000000 + m * 0x20000000
        } else {
            s * 0x8000000000000000 + 0x7ff * 0x10000000000000 + (m + 0x400000) * 0x20000000
        }
    } else if e == 0 {
        if m >= 0x400000 {
            s * 0x8000000000000000 + 896 * 0x10000000000000 + (m - 0x400000) * 0x40000000
        } else if m >= 0x200000 {
            s * 0x8000000000000000 + 895 * 0x10000000000000 + (m - 0x200000) * 0x80000000
        } else if m >= 0x100000 {
            s * 0x8000000000000000 + 894 * 0x10000000000000 + (m - 0x100000) * 0x100000000
        } else if m >= 0x80000 {
            s * 0x8000000000000000 + 893 * 0x10000000000000 + (m - 0x80000) * 0x200000000
        } else if m >= 0x40000 {
            s * 0x8000000000000000 + 892 * 0x10000000000000 + (m - 0x40000) * 0x400000000
        } else if m >= 0x20000 {
            s * 0x8000000000000000 + 891 * 0x10000000000000 + (m - 0x20000) * 0x800000000
        } else if m >= 0x10000 {
            s * 0x8000000000000000 + 890 * 0x10000000000000 + (m - 0x10000) * 0x1000000000
        } else if m >= 0x8000 {
            s * 0x8000000000000000 + 889 * 0x10000000000000 + (m - 0x8000) * 0x2000000000
        } else if m >= 0x4000 {
            s * 0x8000000000000000 + 888 * 0x10000000000000 + (m - 0x4000) * 0x4000000000
        } else if m >= 0x2000 {
            s * 0x8000000000000000 + 887 * 0x10000000000000 + (m - 0x2000) * 0x8000000000
        } else if m >= 0x1000 {
            s * 0x8000000000000000 + 886 * 0x10000000000000 + (m - 0x1000) * 0x10000000000
        } else if m >= 0x800 {
            s * 0x8000000000000000 + 885 * 0x10000000000000 + (m - 0x800) * 0x20000000000
        } else if m >= 0x400 {
            s * 0x8000000000000000 + 884 * 0x10000000000000 + (m - 0x400) * 0x40000000000
        } else if m >= 0x200 {
            s * 0x8000000000000000 + 883 * 0x10000000000000 + (m - 0x200) * 0x80000000000
        } else if m >= 0x100 {
            s * 0x8000000000000000 + 882 * 0x10000000000000 + (m - 0x100) * 0x100000000000
        } else if m >= 0x80 {
            s * 0x8000000000000000 + 881 * 0x10000000000000 + (m - 0x80) * 0x200000000000
        } else if m >= 0x40 {
            s * 0x8000000000000000 + 880 * 0x10000000000000 + (m - 0x40) * 0x400000000000
        } else if m >= 0x20 {
            s * 0x8000000000000000 + 879 * 0x10000000000000 + (m - 0x20) * 0x800000000000
        } else if m >= 0x10 {
            s * 0x8000000000000000 + 878 * 0x10000000000000 + (m - 0x10) * 0x1000000000000
        } else if m >= 0x8 {
            s * 0x8000000000000000 + 877 * 0x10000000000000 + (m - 0x8) * 0x2000000000000
        } else if m >= 0x4 {
            s * 0x8000000000000000 + 876 * 0x10000000000000 + (m - 0x4) * 0x4000000000000
        } else if m >= 0x2 {
            s * 0x8000000000000000 + 875 * 0x10000000000000 + (m - 0x2) * 0x8000000000000
        } else if m == 1 {
            s * 0x8000000000000000 + 874 * 0x10000000000000
        } else {
            s * 0x8000000000000000
        }
    } else {
        s * 0x8000000000000000 + (e + 896) * 0x10000000000000 + m * 0x20000000
    }
}

/// Demotes a binary64 bit pattern to binary16 when that loses nothing.
pub fn f64_to_f16(bits: u64) -> (r: Option<u16>)
    ensures
        r == spec_f64_to_f16(bits),
{
    proof {
        reveal(spec_f64_parts_to_f16);
    }
    let s: u64 = bits / 0x8000000000000000;
    let e: u64 = (bits / 0x10000000000000) % 0x800;
    let m: u64 = bits % 0x10000000000000;
    let c: u64 = if e == 0x7ff {
        s * 0x8000 + 0x7c00 + m / 0x40000000000
    } else if 1009 <= e && e <= 1038 {
        s * 0x8000 + (e - 1008) * 0x400 + m / 0x40000000000
    } else if e == 1008 {
        s * 0x8000 + (0x10000000000000 + m) / 0x80000000000
    } else if e == 1007 {
        s * 0x8000 + (0x10000000000000 + m) / 0x100000000000
    } else if e == 1006 {
        s * 0x8000 + (0x10000000000000 + m) / 0x200000000000
    } else if e == 1005 {
        s * 0x8000 + (0x10000000000000 + m) / 0x400000000000
    } else if e == 1004 {
        s * 0x8000 + (0x10000000000000 + m) / 0x800000000000
    } else if e == 1003 {
        s * 0x8000 + (0x10000000000000 + m) / 0x1000000000000
    } else if e == 1002 {
        s * 0x8000 + (0x10000000000000 + m) / 0x2000000000000
    } else if e == 1001 {
        s * 0x8000 + (0x10000000000000 + m) / 0x4000000000000
    } else if e == 1000 {
        s * 0x8000 + (0x10000000000000 + m) / 0x8000000000000
    } else if e == 999 {
        s * 0x8000 + (0x10000000000000 + m) / 0x10000000000000
    } else {
        s * 0x8000
    };
    let cand: u16 = c as u16;
    assert(cand == spec_f64_to_f16_cand(bits));
    if f16_to_f64(cand) == bits {
        Some(cand)
    } else {
        None
    }
}

/// Demotes a binary64 bit pattern to binary32 when that loses nothing.
pub fn f64_to_f32(bits: u64) -> (r: Option<u32>)
    ensures
        r == spec_f64_to_f32(bits),
{
    proof {
        reveal(spec_f64_parts_to_f32);
    }
    let s: u64 = bits / 0x8000000000000000;
    let e: u64 = (bits / 0x10000000000000) % 0x800;
    let m: u64 = bits % 0x10000000000000;
    let c: u64 = if e == 0x7ff {
        s * 0x80000000 + 0x7f800000 + m / 0x20000000
    } else if 897 <= e && e <= 1150 {
        s * 0x80000000 + (e - 896) * 0x800000 + m / 0x20000000
    } else if e == 896 {
        s * 0x80000000 + (0x10000000000000 + m) / 0x40000000
    } else if e == 895 {
        s * 0x80000000 + (0x10000000000000 + m) / 0x80000000
    } else if e == 894 {
        s * 0x80000000 + (0x10000000000000 + m) / 0x100000000
    } else if e == 893 {
        s * 0x80000000 + (0x10000000000000 + m) / 0x200000000
    } else if e == 892 {
        s * 0x80000000 + (0x10000000000000 + m) / 0x400000000
    } else if e == 891 {
        s * 0x80000000 + (0x10000000000000 + m) / 0x800000000
    } else if e == 890 {
        s * 0x80000000 + (0x10000000000000 + m) / 0x1000000000
    } else if e == 889 {
        s * 0x80000000 + (0x10000000000000 + m) / 0x2000000000
    } else if e == 888 {
        s * 0x80000000 + (0x10000000000000 + m) / 0x4000000000
    } else if e == 887 {
        s * 0x80000000 + (0x10000000000000 + m) / 0x8000000000
    } else if e == 886 {
        s * 0x80000000 + (0x10000000000000 + m) / 0x10000000000
    } else if e == 885 {
        s * 0x80000000 + (0x10000000000000 + m) / 0x20000000000
    } else if e == 884 {
        s * 0x80000000 + (0x10000000000000 + m) / 0x40000000000
    } else if e == 883 {
        s * 0x80000000 + (0x10000000000000 + m) / 0x80000000000
    } else if e == 882 {
        s * 0x80000000 + (0x10000000000000 + m) / 0x100000000000
    } else if e == 881 {
        s * 0x80000000 + (0x10000000000000 + m) / 0x200000000000
    } else if e == 880 {
        s * 0x80000000 + (0x10000000000000 + m) / 0x400000000000
    } else if e == 879 {
        s * 0x80000000 + (0x10000000000000 + m) / 0x800000000000
    } else if e == 878 {
        s * 0x80000000 + (0x10000000000000 + m) / 0x1000000000000
    } else if e == 877 {
        s * 0x80000000 + (0x10000000000000 + m) / 0x2000000000000
    } else if e == 876 {
        s * 0x80000000 + (0x10000000000000 + m) / 0x4000000000000
    } else if e == 875 {
        s * 0x80000000 + (0x10000000000000 + m) / 0x8000000000000
    } else if e == 874 {
        s * 0x80000000 + (0x10000000000000 + m) / 0x10000000000000
    } else {
        s * 0x80000000
    };
    let cand: u32 = c as u32;
    assert(cand == spec_f64_to_f32_cand(bits));
    if f32_to_f64(cand) == bits {
        Some(cand)
    } else {
        None
    }
}

/// Demotion to binary16 is lossless: promoting the result restores the
/// original bit pattern.
pub proof fn lemma_f16_roundtrip(bits: u64)
    ensures
        spec_f64_to_f16(bits) matches Some(h) ==> spec_f16_to_f64(h) == bits,
{
}

/// Demotion to binary32 is lossless: promoting the result restores the
/// original bit pattern.
pub proof fn lemma_f32_roundtrip(bits: u64)
    ensures
        spec_f64_to_f32(bits) matches Some(w) ==> spec_f32_to_f64(w) == bits,
{
}

} // verus!
