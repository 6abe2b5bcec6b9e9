//! Digits under a numeric base, and their rescaling to 8-bit intensities.
use vstd::prelude::*;

verus! {

/// The smallest numeric base a digit can be read in.
pub const MIN_BASE: usize = 2;

/// The largest numeric base a digit can be read in.
pub const MAX_BASE: usize = 36;

/// The value of `c` as a digit of any base up to 36: `0`-`9`, then `a`-`z`
/// or `A`-`Z` for 10 to 35; `None` for any other character.
pub open spec fn digit_value(c: char) -> Option<nat> {
    if '0' <= c <= '9' {
        Some((c as nat - '0' as nat) as nat)
    } else if 'a' <= c <= 'z' {
        Some((c as nat - 'a' as nat + 10) as nat)
    } else if 'A' <= c <= 'Z' {
        Some((c as nat - 'A' as nat + 10) as nat)
    } else {
        None
    }
}

/// The digit `c` stands for under `base`, or 0 when it is no digit of that
/// base (characters that do not parse are read as 0, not rejected).
pub open spec fn lenient_digit(c: char, base: nat) -> nat {
    match digit_value(c) {
        Some(d) => if d < base {
            d
        } else {
            0
        },
        None => 0,
    }
}

/// Reads `c` as a digit under `base`, mapping non-digits to 0.
pub fn digit_of(c: char, base: usize) -> (r: u32)
    requires
        MIN_BASE <= base <= MAX_BASE,
    ensures
        r == lenient_digit(c, base as nat),
        r < base,
{
    let v: u32 = if '0' <= c && c <= '9' {
        c as u32 - '0' as u32
    } else if 'a' <= c && c <= 'z' {
        c as u32 - 'a' as u32 + 10
    } else if 'A' <= c && c <= 'Z' {
        c as u32 - 'A' as u32 + 10
    } else {
        return 0;
    };
    if (v as usize) < base {
        v
    } else {
        0
    }
}

/// Which rescaling of digits to intensities is in force.
#[derive(Clone, Copy, Debug, PartialEq, Eq, Structural)]
pub enum NormMode {
    /// `d * floor(255 / base)`: the top digit stays below full intensity.
    Viewer,
    /// `d * floor(255 / (base - 1))`: the top digit reaches (nearly) 255.
    Export,
}

/// The factor a digit is multiplied by under `mode`.
pub open spec fn scale(mode: NormMode, base: nat) -> nat {
    match mode {
        NormMode::Viewer => 255nat / base,
        NormMode::Export => 255nat / (base - 1) as nat,
    }
}

/// The intensity of digit `d` under `base`; a digit of `base` or above is
/// taken as `base - 1`.
pub open spec fn intensity_spec(mode: NormMode, base: nat, d: nat) -> nat {
    let clamped = if d >= base {
        (base - 1) as nat
    } else {
        d
    };
    clamped * scale(mode, base)
}

/// Under either mode, the intensity of any digit fits in a byte.
pub proof fn lemma_intensity_bounded(mode: NormMode, base: nat, d: nat)
    requires
        MIN_BASE <= base <= MAX_BASE,
    ensures
        intensity_spec(mode, base, d) <= 255,
{
    let clamped: nat = if d >= base {
        (base - 1) as nat
    } else {
        d
    };
    let b1: nat = (base - 1) as nat;
    let s = scale(mode, base);
    vstd::arithmetic::div_mod::lemma_fundamental_div_mod(255, base as int);
    vstd::arithmetic::div_mod::lemma_fundamental_div_mod(255, b1 as int);
    assert(clamped <= b1);
    assert(s * b1 <= 255) by (nonlinear_arith)
        requires
            s == 255nat / base || s == 255nat / b1,
            255 == base * (255nat / base) + 255nat % base,
            255 == b1 * (255nat / b1) + 255nat % b1,
            b1 + 1 == base,
            b1 >= 1,
    ;
    assert(clamped * s <= b1 * s) by (nonlinear_arith)
        requires
            clamped <= b1,
    ;
}

/// Export-mode intensity grows with the digit and stays within a byte.
pub proof fn lemma_export_intensity_monotone(base: nat, d1: nat, d2: nat)
    requires
        MIN_BASE <= base <= MAX_BASE,
        d1 <= d2 < base,
    ensures
        intensity_spec(NormMode::Export, base, d1) <= intensity_spec(NormMode::Export, base, d2),
        intensity_spec(NormMode::Export, base, d2) <= 255,
{
    lemma_intensity_bounded(NormMode::Export, base, d2);
    let s = scale(NormMode::Export, base);
    assert(d1 * s <= d2 * s) by (nonlinear_arith)
        requires
            d1 <= d2,
    ;
}

/// The intensity of digit `d` under `base` and `mode`.
pub fn intensity(mode: NormMode, base: usize, d: u32) -> (r: u8)
    requires
        MIN_BASE <= base <= MAX_BASE,
    ensures
        r == intensity_spec(mode, base as nat, d as nat),
{
    proof {
        lemma_intensity_bounded(mode, base as nat, d as nat);
    }
    let clamped: u32 = if d as usize >= base {
        (base - 1) as u32
    } else {
        d
    };
    let s: u32 = match mode {
        NormMode::Viewer => (255 / base) as u32,
        NormMode::Export => (255 / (base - 1)) as u32,
    };
    assert(clamped * s <= 255);
    (clamped * s) as u8
}

} // verus!
