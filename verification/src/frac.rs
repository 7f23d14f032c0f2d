use vstd::prelude::*;

verus! {

/// One color channel as an exact non-negative rational `num / den`.
///
/// A well-formed channel has `1 <= den` and `num <= den`, so it denotes a
/// value in the closed unit interval. Two channels are compared by the
/// rational value they denote, not by their representation: `1/2` and
/// `2/4` denote the same channel.
#[derive(Debug, Clone, Copy, PartialEq, Eq, Structural)]
pub struct Frac {
    pub num: u64,
    pub den: u64,
}

impl Frac {
    /// The denominator is positive and the denoted value lies in `[0, 1]`.
    pub open spec fn wf(self) -> bool {
        1 <= self.den && self.num <= self.den
    }

    /// The channel whose value is `num / 255`, as produced from an
    /// 8-bit channel.
    pub open spec fn spec_from_byte(b: u8) -> Frac {
        Frac { num: b as u64, den: 255 }
    }

    /// Build a channel from an 8-bit value; the result is `b / 255`.
    pub fn from_byte(b: u8) -> (r: Frac)
        ensures
            r == Frac::spec_from_byte(b),
            r.wf(),
    {
        Frac { num: b as u64, den: 255 }
    }

    /// Scale the channel to `0..=255` and round to the nearest integer,
    /// ties away from zero. The numerator is first clamped to the
    /// denominator, guarding a channel whose invariant was bypassed.
    pub fn to_byte(self) -> (r: u8)
        requires
            1 <= self.den,
        ensures
            r == byte_of(self),
    {
        let num: u64 = if self.num <= self.den {
            self.num
        } else {
            self.den
        };
        let wide_num: u128 = num as u128;
        let wide_den: u128 = self.den as u128;
        let q: u128 = (510 * wide_num + wide_den) / (2 * wide_den);
        proof {
            lemma_byte_of_bounds(self);
        }
        q as u8
    }
}

/// The numerator of `f`, clamped to its denominator.
pub open spec fn clamped_num(f: Frac) -> int {
    if f.num <= f.den {
        f.num as int
    } else {
        f.den as int
    }
}

/// The 8-bit value of a channel: `f` scaled by 255 and rounded to the
/// nearest integer, ties away from zero.
pub open spec fn byte_of(f: Frac) -> int {
    (510 * clamped_num(f) + f.den) / (2 * (f.den as int))
}

/// Rounding a channel to eight bits always lands in `0..=255`.
pub proof fn lemma_byte_of_bounds(f: Frac)
    requires
        1 <= f.den,
    ensures
        0 <= byte_of(f) <= 255,
{
    let n = clamped_num(f);
    let d = f.den as int;
    assert(0 <= (510 * n + d) / (2 * d) <= 255) by (nonlinear_arith)
        requires
            1 <= d,
            0 <= n <= d,
    {}
}

/// A byte scaled down by 255 rounds back to itself: rounding is exact on
/// channels built from 8-bit values.
pub proof fn lemma_byte_roundtrip(b: u8)
    ensures
        byte_of(Frac::spec_from_byte(b)) == b,
{
    let n = b as int;
    assert((510 * n + 255) / 510 == n) by (nonlinear_arith)
        requires
            0 <= n <= 255,
    {}
}

/// Two channels denote the same rational value.
pub open spec fn frac_eq(a: Frac, b: Frac) -> bool {
    (a.num as int) * (b.den as int) == (b.num as int) * (a.den as int)
}

/// The value of `a` lies strictly below the value of `b`.
pub open spec fn frac_lt(a: Frac, b: Frac) -> bool {
    (a.num as int) * (b.den as int) < (b.num as int) * (a.den as int)
}

/// Decide `frac_eq` by cross-multiplication.
pub fn frac_eq_exec(a: Frac, b: Frac) -> (r: bool)
    ensures
        r == frac_eq(a, b),
{
    proof {
        lemma_u64_product_fits(a.num, b.den);
        lemma_u64_product_fits(b.num, a.den);
    }
    (a.num as u128) * (b.den as u128) == (b.num as u128) * (a.den as u128)
}

/// Decide `frac_lt` by cross-multiplication.
pub fn frac_lt_exec(a: Frac, b: Frac) -> (r: bool)
    ensures
        r == frac_lt(a, b),
{
    proof {
        lemma_u64_product_fits(a.num, b.den);
        lemma_u64_product_fits(b.num, a.den);
    }
    (a.num as u128) * (b.den as u128) < (b.num as u128) * (a.den as u128)
}

/// The product of two 64-bit values fits in 128 bits.
pub proof fn lemma_u64_product_fits(x: u64, y: u64)
    ensures
        (x as int) * (y as int) <= u128::MAX,
{
    assert((x as int) * (y as int) <= 0xffff_ffff_ffff_ffff * 0xffff_ffff_ffff_ffff)
        by (nonlinear_arith)
        requires
            0 <= x as int <= 0xffff_ffff_ffff_ffff,
            0 <= y as int <= 0xffff_ffff_ffff_ffff,
    {}
}

/// `frac_eq` is transitive on well-formed channels.
pub proof fn lemma_frac_eq_transitive(a: Frac, b: Frac, c: Frac)
    requires
        b.wf(),
        frac_eq(a, b),
        frac_eq(b, c),
    ensures
        frac_eq(a, c),
{
    let an = a.num as int;
    let ad = a.den as int;
    let bn = b.num as int;
    let bd = b.den as int;
    let cn = c.num as int;
    let cd = c.den as int;
    assert(an * cd == cn * ad) by (nonlinear_arith)
        requires
            1 <= bd,
            an * bd == bn * ad,
            bn * cd == cn * bd,
    {}
}

} // verus!
