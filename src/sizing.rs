use vstd::prelude::*;
use crate::packer::MAX_SIDE;

verus! {

/// A non-negative length in an image's own units, held exactly as the
/// fraction `num / den`.
#[derive(Clone, Copy, Debug, PartialEq, Eq, Structural)]
pub struct Length {
    pub num: u64,
    pub den: u64,
}

impl Length {
    pub open spec fn wf(self) -> bool {
        self.den > 0
    }

    /// The whole length `n`.
    pub fn whole(n: u64) -> (r: Length)
        ensures
            r.wf(),
            r.num == n && r.den == 1,
    {
        Length { num: n, den: 1 }
    }
}

/// `floor(scale * l)`: the pixel size of length `l` at the given scale.
pub open spec fn scaled_floor(scale: int, l: Length) -> int {
    (scale * l.num) / (l.den as int)
}

/// The pixel size of `l` at `scale`, or `None` where it exceeds what the
/// packer can place.
pub fn scaled_pixels(scale: u32, l: Length) -> (r: Option<u32>)
    requires
        l.wf(),
    ensures
        r is Some <==> scaled_floor(scale as int, l) <= MAX_SIDE,
        r matches Some(v) ==> v == scaled_floor(scale as int, l),
{
    let s = scale as u128;
    let n = l.num as u128;
    assert(s * n <= 0xffff_ffff_u128 * 0xffff_ffff_ffff_ffff_u128) by (nonlinear_arith)
        requires
            s <= 0xffff_ffff,
            n <= 0xffff_ffff_ffff_ffff,
    ;
    let q = (s * n) / (l.den as u128);
    if q <= MAX_SIDE as u128 {
        Some(q as u32)
    } else {
        None
    }
}

/// Doubling the scale gives `floor(2 * l)`, which is twice `floor(l)` or one
/// more: the pixel size at scale 2 never falls below double the size at
/// scale 1, and exceeds it by at most one pixel.
pub proof fn lemma_double_scale(l: Length)
    requires
        l.wf(),
    ensures
        scaled_floor(2, l) == 2 * scaled_floor(1, l) || scaled_floor(2, l) == 2 * scaled_floor(1, l)
            + 1,
{
    let n = l.num as int;
    let d = l.den as int;
    let q = n / d;
    let r = n % d;
    assert(n == q * d + r && 0 <= r < d) by {
        vstd::arithmetic::div_mod::lemma_fundamental_div_mod(n, d);
    }
    assert(2 * n == (2 * q) * d + 2 * r) by (nonlinear_arith)
        requires
            n == q * d + r,
    ;
    if 2 * r < d {
        vstd::arithmetic::div_mod::lemma_fundamental_div_mod_converse(2 * n, d, 2 * q, 2 * r);
    } else {
        assert(2 * n == (2 * q + 1) * d + (2 * r - d)) by (nonlinear_arith)
            requires
                2 * n == (2 * q) * d + 2 * r,
        ;
        vstd::arithmetic::div_mod::lemma_fundamental_div_mod_converse(2 * n, d, 2 * q + 1, 2 * r - d);
    }
}

} // verus!
