use vstd::prelude::*;

use rayon::iter::{IntoParallelRefIterator, ParallelIterator};

use crate::color::{
    color_eq, first_bad_pair, hex_digits_ok, hex_form_ok, hex_ok, lemma_blend_seq_wf, pair_val,
    parsed_color, spec_to_hex, Blend, Color,
};
use crate::error::{ColorError, ColorResult};
use crate::frac::Frac;

verus! {

/// A blender over two colors given as `#rrggbb` text, with a configurable
/// number of intermediate steps.
pub struct ColorBlender {
    pub start_color: String,
    pub end_color: String,
    pub precision: usize,
}

impl Default for ColorBlender {
    /// Black to white with ten midpoints.
    fn default() -> (r: ColorBlender)
        ensures
            r.start_color@ == "#000000"@,
            r.end_color@ == "#ffffff"@,
            r.precision == 10,
    {
        ColorBlender {
            start_color: String::from_str("#000000"),
            end_color: String::from_str("#ffffff"),
            precision: 10,
        }
    }
}

impl ColorBlender {
    /// Build a blender from two hex texts and a midpoint count.
    pub fn new(start_color: String, end_color: String, precision: usize) -> (r: ColorBlender)
        ensures
            r == (ColorBlender { start_color, end_color, precision }),
    {
        ColorBlender { start_color, end_color, precision }
    }

    /// Parse both endpoint texts, blend them with `precision` midpoints,
    /// and render every step as `#rrggbb` text. An endpoint that does not
    /// parse is reported as the error `from_hex` gives for it, the start
    /// color checked first.
    ///
    /// Parsed endpoints have channel denominator 255, so a blend step's
    /// common denominator is `255 * 255 * (precision + 1)`; the bound on
    /// `precision` keeps that within 64 bits.
    pub fn blend_colors(&self) -> (r: ColorResult<Vec<String>>)
        requires
            self.precision + 2 <= usize::MAX,
            65025 * (self.precision + 1) <= u64::MAX,
        ensures
            match r {
                Ok(v) => {
                    &&& hex_ok(self.start_color@)
                    &&& hex_ok(self.end_color@)
                    &&& v@.len() == self.precision + 2
                    &&& forall|i: int|
                        0 <= i < v@.len() ==> (#[trigger] v@[i])@ == spec_to_hex(
                            parsed_color(self.start_color@).blend_seq(
                                parsed_color(self.end_color@),
                                self.precision,
                            )[i],
                        )
                },
                Err(e) => match e {
                    ColorError::WrongFormat(_) => !hex_form_ok(self.start_color@) || (hex_ok(
                        self.start_color@,
                    ) && !hex_form_ok(self.end_color@)),
                    ColorError::ParseError(_) => (hex_form_ok(self.start_color@)
                        && !hex_digits_ok(self.start_color@)) || (hex_ok(self.start_color@)
                        && hex_form_ok(self.end_color@) && !hex_digits_ok(self.end_color@)),
                    ColorError::OutOfRange(_) => false,
                },
            },
    {
        let start = match Color::from_hex(self.start_color.as_str()) {
            Ok(c) => c,
            Err(e) => return Err(e),
        };
        let end = match Color::from_hex(self.end_color.as_str()) {
            Ok(c) => c,
            Err(e) => return Err(e),
        };
        let colors = start.blend(end, self.precision);
        proof {
            lemma_blend_seq_wf(start, end, self.precision);
        }
        Ok(par_map_to_hex(&colors))
    }
}

/// Relies on rayon's `par_iter`, `map` and `collect`: a parallel map over
/// a vector is an indexed parallel iterator, and collecting one into a
/// vector places each result at the index of the element it came from.
/// Each element is rendered by the verified `Color::to_hex`.
#[verifier::external_body]
fn par_map_to_hex(colors: &Vec<Color>) -> (r: Vec<String>)
    requires
        forall|i: int| 0 <= i < colors@.len() ==> (#[trigger] colors@[i]).wf(),
    ensures
        r@.len() == colors@.len(),
        forall|i: int| 0 <= i < colors@.len() ==> (#[trigger] r@[i])@ == spec_to_hex(colors@[i]),
{
    colors.par_iter().map(|c| c.to_hex()).collect()
}

/// Helpers converting between 8-bit channel triples and hex text.
pub struct ColorConverter;

impl ColorConverter {
    /// Render a color as `#rrggbb` text.
    pub fn rgb_to_hex(color: Color) -> (r: String)
        requires
            color.wf(),
        ensures
            r@ == spec_to_hex(color),
    {
        color.to_hex()
    }

    /// Parse `#rrggbb` text into its three 8-bit channel values.
    pub fn hex_to_rgb(hex_color: &str) -> (r: ColorResult<(u8, u8, u8)>)
        ensures
            match r {
                Ok(t) => hex_ok(hex_color@) && t.0 == pair_val(hex_color@, 1) && t.1 == pair_val(
                    hex_color@,
                    3,
                ) && t.2 == pair_val(hex_color@, 5),
                Err(e) => match e {
                    ColorError::WrongFormat(_) => !hex_form_ok(hex_color@),
                    ColorError::ParseError(p) => hex_form_ok(hex_color@) && !hex_digits_ok(
                        hex_color@,
                    ) && p@ == hex_color@.subrange(
                        first_bad_pair(hex_color@),
                        first_bad_pair(hex_color@) + 2,
                    ),
                    ColorError::OutOfRange(_) => false,
                },
            },
    {
        match Color::from_hex(hex_color) {
            Ok(c) => Ok(((c.red.num as u8), (c.green.num as u8), (c.blue.num as u8))),
            Err(e) => Err(e),
        }
    }
}

/// The exact squared distance between two colors, as the non-negative
/// rational `num / den`. Its value lies in `[0, 3]`; the distance itself
/// is its square root, in `[0, sqrt(3)]`.
#[derive(Debug, Clone, Copy, PartialEq, Eq, Structural)]
pub struct DistanceSquared {
    pub num: u128,
    pub den: u128,
}

/// The signed cross-difference of two channels: `a - b` has the exact
/// value `cross_diff(a, b) / (a.den * b.den)`.
pub open spec fn cross_diff(a: Frac, b: Frac) -> int {
    a.num * b.den - b.num * a.den
}

/// The denominator product of one channel pair.
pub open spec fn pair_den(a: Frac, b: Frac) -> int {
    a.den * b.den
}

/// The common denominator of the three channel pairs of two colors.
pub open spec fn common_den(a: Color, b: Color) -> int {
    pair_den(a.red, b.red) * pair_den(a.green, b.green) * pair_den(a.blue, b.blue)
}

/// One channel's contribution to the squared distance: its
/// cross-difference scaled to the common denominator, squared.
pub open spec fn dist_term(diff: int, other_dens: int) -> int {
    (diff * other_dens) * (diff * other_dens)
}

/// The numerator of the squared distance over `common_den(a, b)` squared.
pub open spec fn dist_sq_num(a: Color, b: Color) -> int {
    dist_term(cross_diff(a.red, b.red), pair_den(a.green, b.green) * pair_den(a.blue, b.blue))
        + dist_term(
        cross_diff(a.green, b.green),
        pair_den(a.red, b.red) * pair_den(a.blue, b.blue),
    ) + dist_term(cross_diff(a.blue, b.blue), pair_den(a.red, b.red) * pair_den(a.green, b.green))
}

/// The denominator of the squared distance.
pub open spec fn dist_sq_den(a: Color, b: Color) -> int {
    common_den(a, b) * common_den(a, b)
}

/// The exact squared Euclidean distance between the normalized channel
/// vectors of `a` and `b`: the sum of the three squared channel
/// differences.
pub fn distance_squared(a: &Color, b: &Color) -> (r: DistanceSquared)
    requires
        a.wf(),
        b.wf(),
        common_den(*a, *b) <= 0x4000_0000_0000_0000,
    ensures
        r.num == dist_sq_num(*a, *b),
        r.den == dist_sq_den(*a, *b),
{
    proof {
        lemma_distance_bounds(*a, *b);
        crate::frac::lemma_u64_product_fits(a.red.den, b.red.den);
        crate::frac::lemma_u64_product_fits(a.green.den, b.green.den);
        crate::frac::lemma_u64_product_fits(a.blue.den, b.blue.den);
    }
    let d1 = (a.red.den as u128) * (b.red.den as u128);
    let d2 = (a.green.den as u128) * (b.green.den as u128);
    let d3 = (a.blue.den as u128) * (b.blue.den as u128);
    proof {
        assert((d1 as int) * (d2 as int) * (d3 as int) == common_den(*a, *b)) by (nonlinear_arith)
            requires
                d1 as int == (a.red.den as int) * (b.red.den as int),
                d2 as int == (a.green.den as int) * (b.green.den as int),
                d3 as int == (a.blue.den as int) * (b.blue.den as int),
                common_den(*a, *b) == ((a.red.den as int) * (b.red.den as int)) * ((a.green.den
                    as int) * (b.green.den as int)) * ((a.blue.den as int) * (b.blue.den as int)),
        {}
        assert((d2 as int) * (d3 as int) <= common_den(*a, *b) && (d1 as int) * (d3 as int)
            <= common_den(*a, *b) && (d1 as int) * (d2 as int) <= common_den(*a, *b) && (d1
            as int) * ((d2 as int) * (d3 as int)) == common_den(*a, *b) && (d2 as int) * ((d1
            as int) * (d3 as int)) == common_den(*a, *b) && (d3 as int) * ((d1 as int) * (d2
            as int)) == common_den(*a, *b)) by (nonlinear_arith)
            requires
                1 <= d1 as int,
                1 <= d2 as int,
                1 <= d3 as int,
                (d1 as int) * (d2 as int) * (d3 as int) == common_den(*a, *b),
        {}
    }
    let dd = d1 * (d2 * d3);
    let s1 = dist_term_exec(a.red, b.red, d2 * d3);
    let s2 = dist_term_exec(a.green, b.green, d1 * d3);
    let s3 = dist_term_exec(a.blue, b.blue, d1 * d2);
    proof {
        assert(dd * dd <= u128::MAX) by (nonlinear_arith)
            requires
                1 <= dd as int <= 0x4000_0000_0000_0000,
        {}
        assert((dd as int) * (dd as int) == dist_sq_den(*a, *b)) by (nonlinear_arith)
            requires
                dd as int == common_den(*a, *b),
                dist_sq_den(*a, *b) == common_den(*a, *b) * common_den(*a, *b),
        {}
    }
    DistanceSquared { num: s1 + s2 + s3, den: dd * dd }
}

/// As `distance_squared`, but testing at run time that the common
/// denominator is small enough for exact arithmetic; `None` exactly
/// where it is not.
pub fn distance_squared_checked(a: &Color, b: &Color) -> (r: Option<DistanceSquared>)
    requires
        a.wf(),
        b.wf(),
    ensures
        match r {
            Some(d) => common_den(*a, *b) <= 0x4000_0000_0000_0000 && d.num == dist_sq_num(*a, *b)
                && d.den == dist_sq_den(*a, *b),
            None => common_den(*a, *b) > 0x4000_0000_0000_0000,
        },
{
    proof {
        crate::frac::lemma_u64_product_fits(a.red.den, b.red.den);
        crate::frac::lemma_u64_product_fits(a.green.den, b.green.den);
        crate::frac::lemma_u64_product_fits(a.blue.den, b.blue.den);
    }
    let d1 = (a.red.den as u128) * (b.red.den as u128);
    let d2 = (a.green.den as u128) * (b.green.den as u128);
    let d3 = (a.blue.den as u128) * (b.blue.den as u128);
    let dd = match d1.checked_mul(d2) {
        Some(d12) => match d12.checked_mul(d3) {
            Some(v) => v,
            None => {
                proof {
                    lemma_common_den_large(*a, *b, d1 as int, d2 as int, d3 as int);
                }
                return None;
            },
        },
        None => {
            proof {
                lemma_common_den_large_pair(*a, *b, d1 as int, d2 as int, d3 as int);
            }
            return None;
        },
    };
    proof {
        assert(dd as int == common_den(*a, *b)) by (nonlinear_arith)
            requires
                dd as int == (d1 as int) * (d2 as int) * (d3 as int),
                d1 as int == (a.red.den as int) * (b.red.den as int),
                d2 as int == (a.green.den as int) * (b.green.den as int),
                d3 as int == (a.blue.den as int) * (b.blue.den as int),
                common_den(*a, *b) == ((a.red.den as int) * (b.red.den as int)) * ((a.green.den
                    as int) * (b.green.den as int)) * ((a.blue.den as int) * (b.blue.den as int)),
        {}
    }
    if dd <= 0x4000_0000_0000_0000 {
        Some(distance_squared(a, b))
    } else {
        None
    }
}

/// When the product of the first two pair denominators already overflows
/// 128 bits, the common denominator exceeds the exact-arithmetic bound.
proof fn lemma_common_den_large_pair(a: Color, b: Color, d1: int, d2: int, d3: int)
    requires
        a.wf(),
        b.wf(),
        d1 == (a.red.den as int) * (b.red.den as int),
        d2 == (a.green.den as int) * (b.green.den as int),
        d3 == (a.blue.den as int) * (b.blue.den as int),
        d1 * d2 > u128::MAX,
    ensures
        common_den(a, b) > 0x4000_0000_0000_0000,
{
    lemma_distance_bounds_weak(a, b);
    assert(d1 * d2 * d3 >= d1 * d2) by (nonlinear_arith)
        requires
            1 <= d3,
            0 <= d1 * d2,
    {}
}

/// When multiplying in the third pair denominator overflows 128 bits,
/// the common denominator exceeds the exact-arithmetic bound.
proof fn lemma_common_den_large(a: Color, b: Color, d1: int, d2: int, d3: int)
    requires
        a.wf(),
        b.wf(),
        d1 == (a.red.den as int) * (b.red.den as int),
        d2 == (a.green.den as int) * (b.green.den as int),
        d3 == (a.blue.den as int) * (b.blue.den as int),
        0 <= d1 * d2 <= u128::MAX,
        (d1 * d2) * d3 > u128::MAX,
    ensures
        common_den(a, b) > 0x4000_0000_0000_0000,
{
    lemma_distance_bounds_weak(a, b);
}

/// One channel's squared contribution to the distance numerator,
/// computed exactly.
fn dist_term_exec(x: Frac, y: Frac, other_dens: u128) -> (r: u128)
    requires
        x.wf(),
        y.wf(),
        (x.den as int) * (y.den as int) * (other_dens as int) <= 0x4000_0000_0000_0000,
    ensures
        r == dist_term(cross_diff(x, y), other_dens as int),
        r <= 0x1000_0000_0000_0000_0000_0000_0000_0000,
{
    let c = channel_diff(x, y);
    proof {
        let cv = c as int;
        let ov = other_dens as int;
        let pd = (x.den as int) * (y.den as int);
        assert(0 <= cv * ov <= 0x4000_0000_0000_0000) by (nonlinear_arith)
            requires
                0 <= cv <= pd,
                0 <= ov,
                pd * ov <= 0x4000_0000_0000_0000,
        {}
        assert((cv * ov) * (cv * ov) <= 0x1000_0000_0000_0000_0000_0000_0000_0000)
            by (nonlinear_arith)
            requires
                0 <= cv * ov <= 0x4000_0000_0000_0000,
        {}
        assert((cv * ov) * (cv * ov) == dist_term(cross_diff(x, y), ov)) by (nonlinear_arith)
            requires
                cv == cross_diff(x, y) || cv == -cross_diff(x, y),
                dist_term(cross_diff(x, y), ov) == (cross_diff(x, y) * ov) * (cross_diff(x, y)
                    * ov),
        {}
    }
    let t = c * other_dens;
    t * t
}

/// The absolute cross-difference of two channels.
fn channel_diff(a: Frac, b: Frac) -> (r: u128)
    requires
        a.wf(),
        b.wf(),
    ensures
        r == cross_diff(a, b) || r == -cross_diff(a, b),
        r <= (a.den as int) * (b.den as int),
{
    proof {
        crate::frac::lemma_u64_product_fits(a.num, b.den);
        crate::frac::lemma_u64_product_fits(b.num, a.den);
        assert((a.num as int) * (b.den as int) <= (a.den as int) * (b.den as int))
            by (nonlinear_arith)
            requires
                0 <= a.num as int <= a.den as int,
                0 <= b.den as int,
        {}
        assert((b.num as int) * (a.den as int) <= (b.den as int) * (a.den as int))
            by (nonlinear_arith)
            requires
                0 <= b.num as int <= b.den as int,
                0 <= a.den as int,
        {}
    }
    let p = (a.num as u128) * (b.den as u128);
    let q = (b.num as u128) * (a.den as u128);
    if p >= q {
        p - q
    } else {
        q - p
    }
}

/// Bounds used by `distance_squared`: with the common denominator held
/// under `2^62`, every intermediate product fits in 128 bits.
proof fn lemma_distance_bounds(a: Color, b: Color)
    requires
        a.wf(),
        b.wf(),
        common_den(a, b) <= 0x4000_0000_0000_0000,
    ensures
        1 <= pair_den(a.red, b.red),
        1 <= pair_den(a.green, b.green),
        1 <= pair_den(a.blue, b.blue),
        1 <= common_den(a, b),
        pair_den(a.green, b.green) * pair_den(a.blue, b.blue) <= common_den(a, b),
        pair_den(a.red, b.red) * pair_den(a.blue, b.blue) <= common_den(a, b),
        pair_den(a.red, b.red) * pair_den(a.green, b.green) <= common_den(a, b),
        common_den(a, b) * common_den(a, b) <= u128::MAX,
{
    let d1 = pair_den(a.red, b.red);
    let d2 = pair_den(a.green, b.green);
    let d3 = pair_den(a.blue, b.blue);
    assert(1 <= d1 && 1 <= d2 && 1 <= d3) by (nonlinear_arith)
        requires
            1 <= a.red.den as int,
            1 <= b.red.den as int,
            1 <= a.green.den as int,
            1 <= b.green.den as int,
            1 <= a.blue.den as int,
            1 <= b.blue.den as int,
            d1 == (a.red.den as int) * (b.red.den as int),
            d2 == (a.green.den as int) * (b.green.den as int),
            d3 == (a.blue.den as int) * (b.blue.den as int),
    {}
    assert(1 <= d1 * d2 * d3 && d2 * d3 <= d1 * d2 * d3 && d1 * d3 <= d1 * d2 * d3 && d1 * d2
        <= d1 * d2 * d3) by (nonlinear_arith)
        requires
            1 <= d1,
            1 <= d2,
            1 <= d3,
    {}
    assert(d1 * d2 * d3 * (d1 * d2 * d3) <= u128::MAX) by (nonlinear_arith)
        requires
            1 <= d1 * d2 * d3 <= 0x4000_0000_0000_0000,
    {}
}

/// Value-equal colors are at squared distance zero.
pub proof fn lemma_distance_zero(a: Color, b: Color)
    requires
        color_eq(a, b),
    ensures
        dist_sq_num(a, b) == 0,
{
    let x1 = cross_diff(a.red, b.red);
    let x2 = cross_diff(a.green, b.green);
    let x3 = cross_diff(a.blue, b.blue);
    assert(x1 == 0 && x2 == 0 && x3 == 0);
    let o1 = pair_den(a.green, b.green) * pair_den(a.blue, b.blue);
    let o2 = pair_den(a.red, b.red) * pair_den(a.blue, b.blue);
    let o3 = pair_den(a.red, b.red) * pair_den(a.green, b.green);
    assert(dist_term(x1, o1) == 0) by (nonlinear_arith)
        requires
            x1 == 0,
            dist_term(x1, o1) == (x1 * o1) * (x1 * o1),
    {}
    assert(dist_term(x2, o2) == 0) by (nonlinear_arith)
        requires
            x2 == 0,
            dist_term(x2, o2) == (x2 * o2) * (x2 * o2),
    {}
    assert(dist_term(x3, o3) == 0) by (nonlinear_arith)
        requires
            x3 == 0,
            dist_term(x3, o3) == (x3 * o3) * (x3 * o3),
    {}
}

/// Well-formed colors at squared distance zero are value-equal.
pub proof fn lemma_distance_zero_converse(a: Color, b: Color)
    requires
        a.wf(),
        b.wf(),
        dist_sq_num(a, b) == 0,
    ensures
        color_eq(a, b),
{
    lemma_distance_bounds_weak(a, b);
    let d1 = pair_den(a.red, b.red);
    let d2 = pair_den(a.green, b.green);
    let d3 = pair_den(a.blue, b.blue);
    let x1 = cross_diff(a.red, b.red);
    let x2 = cross_diff(a.green, b.green);
    let x3 = cross_diff(a.blue, b.blue);
    assert(0 <= dist_term(x1, d2 * d3)) by (nonlinear_arith) {}
    assert(0 <= dist_term(x2, d1 * d3)) by (nonlinear_arith) {}
    assert(0 <= dist_term(x3, d1 * d2)) by (nonlinear_arith) {}
    assert(x1 == 0) by (nonlinear_arith)
        requires
            dist_term(x1, d2 * d3) == 0,
            1 <= d2,
            1 <= d3,
            dist_term(x1, d2 * d3) == (x1 * (d2 * d3)) * (x1 * (d2 * d3)),
    {}
    assert(x2 == 0) by (nonlinear_arith)
        requires
            dist_term(x2, d1 * d3) == 0,
            1 <= d1,
            1 <= d3,
            dist_term(x2, d1 * d3) == (x2 * (d1 * d3)) * (x2 * (d1 * d3)),
    {}
    assert(x3 == 0) by (nonlinear_arith)
        requires
            dist_term(x3, d1 * d2) == 0,
            1 <= d1,
            1 <= d2,
            dist_term(x3, d1 * d2) == (x3 * (d1 * d2)) * (x3 * (d1 * d2)),
    {}
}

/// Positivity of the three pair denominators of well-formed colors.
proof fn lemma_distance_bounds_weak(a: Color, b: Color)
    requires
        a.wf(),
        b.wf(),
    ensures
        1 <= pair_den(a.red, b.red),
        1 <= pair_den(a.green, b.green),
        1 <= pair_den(a.blue, b.blue),
{
    assert(1 <= (a.red.den as int) * (b.red.den as int) && 1 <= (a.green.den as int) * (
    b.green.den as int) && 1 <= (a.blue.den as int) * (b.blue.den as int)) by (nonlinear_arith)
        requires
            1 <= a.red.den as int,
            1 <= b.red.den as int,
            1 <= a.green.den as int,
            1 <= b.green.den as int,
            1 <= a.blue.den as int,
            1 <= b.blue.den as int,
    {}
}

/// The squared distance is symmetric in its two colors.
pub proof fn lemma_distance_symmetric(a: Color, b: Color)
    ensures
        dist_sq_num(a, b) == dist_sq_num(b, a),
        dist_sq_den(a, b) == dist_sq_den(b, a),
{
    let d1 = pair_den(a.red, b.red);
    let d2 = pair_den(a.green, b.green);
    let d3 = pair_den(a.blue, b.blue);
    assert(pair_den(b.red, a.red) == d1) by (nonlinear_arith)
        requires
            pair_den(b.red, a.red) == (b.red.den as int) * (a.red.den as int),
            d1 == (a.red.den as int) * (b.red.den as int),
    {}
    assert(pair_den(b.green, a.green) == d2) by (nonlinear_arith)
        requires
            pair_den(b.green, a.green) == (b.green.den as int) * (a.green.den as int),
            d2 == (a.green.den as int) * (b.green.den as int),
    {}
    assert(pair_den(b.blue, a.blue) == d3) by (nonlinear_arith)
        requires
            pair_den(b.blue, a.blue) == (b.blue.den as int) * (a.blue.den as int),
            d3 == (a.blue.den as int) * (b.blue.den as int),
    {}
    let x1 = cross_diff(a.red, b.red);
    let x2 = cross_diff(a.green, b.green);
    let x3 = cross_diff(a.blue, b.blue);
    assert(cross_diff(b.red, a.red) == -x1);
    assert(cross_diff(b.green, a.green) == -x2);
    assert(cross_diff(b.blue, a.blue) == -x3);
    assert(dist_term(-x1, d2 * d3) == dist_term(x1, d2 * d3)) by (nonlinear_arith)
        requires
            dist_term(-x1, d2 * d3) == ((-x1) * (d2 * d3)) * ((-x1) * (d2 * d3)),
            dist_term(x1, d2 * d3) == (x1 * (d2 * d3)) * (x1 * (d2 * d3)),
    {}
    assert(dist_term(-x2, d1 * d3) == dist_term(x2, d1 * d3)) by (nonlinear_arith)
        requires
            dist_term(-x2, d1 * d3) == ((-x2) * (d1 * d3)) * ((-x2) * (d1 * d3)),
            dist_term(x2, d1 * d3) == (x2 * (d1 * d3)) * (x2 * (d1 * d3)),
    {}
    assert(dist_term(-x3, d1 * d2) == dist_term(x3, d1 * d2)) by (nonlinear_arith)
        requires
            dist_term(-x3, d1 * d2) == ((-x3) * (d1 * d2)) * ((-x3) * (d1 * d2)),
            dist_term(x3, d1 * d2) == (x3 * (d1 * d2)) * (x3 * (d1 * d2)),
    {}
}

} // verus!
