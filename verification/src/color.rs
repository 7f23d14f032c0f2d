use vstd::prelude::*;

use core::cmp::Ordering;

use crate::error::{ColorError, ColorResult};
use crate::frac::{
    byte_of, frac_eq, frac_eq_exec, frac_lt, frac_lt_exec, lemma_byte_of_bounds,
    lemma_byte_roundtrip, lemma_frac_eq_transitive, Frac,
};

verus! {

/// A color with red, green and blue channels, each an exact rational in
/// the closed unit interval.
///
/// Two colors are equal exactly when all three channels denote the same
/// value; `<` is the lexicographic order on `(red, green, blue)`.
#[derive(Debug, Clone, Copy)]
pub struct Color {
    pub red: Frac,
    pub green: Frac,
    pub blue: Frac,
}

/// All three channels denote the same values.
pub open spec fn color_eq(a: Color, b: Color) -> bool {
    frac_eq(a.red, b.red) && frac_eq(a.green, b.green) && frac_eq(a.blue, b.blue)
}

/// The lexicographic comparison of two colors on `(red, green, blue)`.
pub open spec fn color_cmp(a: Color, b: Color) -> Ordering {
    if frac_lt(a.red, b.red) {
        Ordering::Less
    } else if frac_lt(b.red, a.red) {
        Ordering::Greater
    } else if frac_lt(a.green, b.green) {
        Ordering::Less
    } else if frac_lt(b.green, a.green) {
        Ordering::Greater
    } else if frac_lt(a.blue, b.blue) {
        Ordering::Less
    } else if frac_lt(b.blue, a.blue) {
        Ordering::Greater
    } else {
        Ordering::Equal
    }
}

/// The color whose channels are the three 8-bit values scaled by 255.
pub open spec fn spec_color_from_bytes(r: u8, g: u8, b: u8) -> Color {
    Color {
        red: Frac::spec_from_byte(r),
        green: Frac::spec_from_byte(g),
        blue: Frac::spec_from_byte(b),
    }
}

impl Color {
    /// Every channel is well-formed: positive denominator, value in `[0, 1]`.
    pub open spec fn wf(self) -> bool {
        self.red.wf() && self.green.wf() && self.blue.wf()
    }

    /// Build a color from three raw channels, rejecting any channel that
    /// does not denote a value in the unit interval.
    pub fn new(red: Frac, green: Frac, blue: Frac) -> (r: ColorResult<Color>)
        ensures
            match r {
                Ok(c) => red.wf() && green.wf() && blue.wf() && c == (Color { red, green, blue }),
                Err(e) => {
                    !(red.wf() && green.wf() && blue.wf()) && e matches ColorError::OutOfRange(_)
                },
            },
    {
        if red.den >= 1 && red.num <= red.den && green.den >= 1 && green.num <= green.den
            && blue.den >= 1 && blue.num <= blue.den {
            Ok(Color { red, green, blue })
        } else {
            Err(ColorError::OutOfRange(String::from_str("channels must lie between 0 and 1")))
        }
    }

    /// The three channels rounded to 8-bit values, nearest, ties away
    /// from zero.
    pub fn to_u8_array(&self) -> (r: [u8; 3])
        requires
            self.wf(),
        ensures
            r@ == seq![
                byte_of(self.red) as u8,
                byte_of(self.green) as u8,
                byte_of(self.blue) as u8,
            ],
    {
        proof {
            lemma_byte_of_bounds(self.red);
            lemma_byte_of_bounds(self.green);
            lemma_byte_of_bounds(self.blue);
        }
        let r = [self.red.to_byte(), self.green.to_byte(), self.blue.to_byte()];
        proof {
            assert(r@ =~= seq![
                byte_of(self.red) as u8,
                byte_of(self.green) as u8,
                byte_of(self.blue) as u8,
            ]);
        }
        r
    }

    /// The three normalized channels, in order.
    pub fn to_array(&self) -> (r: [Frac; 3])
        ensures
            r@ == seq![self.red, self.green, self.blue],
    {
        let r = [self.red, self.green, self.blue];
        proof {
            assert(r@ =~= seq![self.red, self.green, self.blue]);
        }
        r
    }

    /// Render the color as `#rrggbb`: seven lowercase characters, two hex
    /// digits per channel, each channel rounded as in `to_u8_array`.
    pub fn to_hex(&self) -> (r: String)
        requires
            self.wf(),
        ensures
            r@ == spec_to_hex(*self),
    {
        let rb = self.red.to_byte();
        let gb = self.green.to_byte();
        let bb = self.blue.to_byte();
        proof {
            lemma_byte_of_bounds(self.red);
            lemma_byte_of_bounds(self.green);
            lemma_byte_of_bounds(self.blue);
            reveal_strlit("#");
        }
        let mut s = String::from_str("#");
        s.append(hex_digit_str(rb / 16));
        s.append(hex_digit_str(rb % 16));
        s.append(hex_digit_str(gb / 16));
        s.append(hex_digit_str(gb % 16));
        s.append(hex_digit_str(bb / 16));
        s.append(hex_digit_str(bb % 16));
        proof {
            assert(s@ =~= spec_to_hex(*self));
        }
        s
    }

    /// Parse a `#rrggbb` string. The text must be exactly seven characters
    /// and start with `#`, or a `WrongFormat` error is returned; each
    /// two-character group must be hexadecimal, or a `ParseError` carrying
    /// the first offending group is returned.
    pub fn from_hex(hex: &str) -> (r: ColorResult<Color>)
        ensures
            match r {
                Ok(c) => hex_ok(hex@) && c == parsed_color(hex@),
                Err(e) => match e {
                    ColorError::WrongFormat(_) => !hex_form_ok(hex@),
                    ColorError::ParseError(p) => hex_form_ok(hex@) && !hex_digits_ok(hex@)
                        && p@ == hex@.subrange(
                        first_bad_pair(hex@),
                        first_bad_pair(hex@) + 2,
                    ),
                    ColorError::OutOfRange(_) => false,
                },
            },
    {
        if hex.unicode_len() != 7 {
            return Err(ColorError::WrongFormat(String::from_str(
                "hex color must be of the form `#rrggbb`",
            )));
        }
        if hex.get_char(0) != '#' {
            return Err(ColorError::WrongFormat(String::from_str(
                "hex color must be of the form `#rrggbb`",
            )));
        }
        let rv = match Self::parse_pair(hex, 1) {
            Ok(v) => v,
            Err(e) => return Err(e),
        };
        let gv = match Self::parse_pair(hex, 3) {
            Ok(v) => v,
            Err(e) => return Err(e),
        };
        let bv = match Self::parse_pair(hex, 5) {
            Ok(v) => v,
            Err(e) => return Err(e),
        };
        Ok(Color {
            red: Frac::from_byte(rv),
            green: Frac::from_byte(gv),
            blue: Frac::from_byte(bv),
        })
    }

    /// Parse the two-character group starting at `i` as one hexadecimal
    /// byte.
    fn parse_pair(hex: &str, i: usize) -> (r: ColorResult<u8>)
        requires
            i + 2 <= hex@.len(),
            i + 2 <= usize::MAX,
        ensures
            match r {
                Ok(v) => pair_ok(hex@, i as int) && v == pair_val(hex@, i as int),
                Err(e) => !pair_ok(hex@, i as int) && (e matches ColorError::ParseError(p)
                    && p@ == hex@.subrange(i as int, i + 2)),
            },
    {
        let hi = hex_val_exec(hex.get_char(i));
        let lo = hex_val_exec(hex.get_char(i + 1));
        match (hi, lo) {
            (Some(h), Some(l)) => Ok(16 * h + l),
            _ => Err(ColorError::ParseError(hex.substring_char(i, i + 2).to_owned())),
        }
    }
}

/// The text form of a color: `#` then six lowercase hex digits, two per
/// rounded channel.
pub open spec fn spec_to_hex(c: Color) -> Seq<char> {
    seq![
        '#',
        hex_digit_char(byte_of(c.red) / 16),
        hex_digit_char(byte_of(c.red) % 16),
        hex_digit_char(byte_of(c.green) / 16),
        hex_digit_char(byte_of(c.green) % 16),
        hex_digit_char(byte_of(c.blue) / 16),
        hex_digit_char(byte_of(c.blue) % 16),
    ]
}

/// The text has exactly seven characters and starts with `#`.
pub open spec fn hex_form_ok(s: Seq<char>) -> bool {
    s.len() == 7 && s[0] == '#'
}

/// The six characters after `#` are all hexadecimal digits.
pub open spec fn hex_digits_ok(s: Seq<char>) -> bool {
    forall|i: int| 1 <= i < 7 ==> is_hex_digit(#[trigger] s[i])
}

/// The text is a well-formed `#rrggbb` color.
pub open spec fn hex_ok(s: Seq<char>) -> bool {
    hex_form_ok(s) && hex_digits_ok(s)
}

/// Both characters of the group starting at `i` are hexadecimal digits.
pub open spec fn pair_ok(s: Seq<char>, i: int) -> bool {
    is_hex_digit(s[i]) && is_hex_digit(s[i + 1])
}

/// The byte denoted by the two hex digits starting at `i`.
pub open spec fn pair_val(s: Seq<char>, i: int) -> int {
    16 * hex_val(s[i]) + hex_val(s[i + 1])
}

/// The start of the first two-character group that is not hexadecimal.
pub open spec fn first_bad_pair(s: Seq<char>) -> int {
    if !pair_ok(s, 1) {
        1
    } else if !pair_ok(s, 3) {
        3
    } else {
        5
    }
}

/// The color a well-formed `#rrggbb` text denotes.
pub open spec fn parsed_color(s: Seq<char>) -> Color {
    Color {
        red: Frac { num: pair_val(s, 1) as u64, den: 255 },
        green: Frac { num: pair_val(s, 3) as u64, den: 255 },
        blue: Frac { num: pair_val(s, 5) as u64, den: 255 },
    }
}

/// The character is a hexadecimal digit, either case.
pub open spec fn is_hex_digit(c: char) -> bool {
    (('0' as int) <= c as int && c as int <= ('9' as int)) || (('a' as int) <= c as int && c
        as int <= ('f' as int)) || (('A' as int) <= c as int && c as int <= ('F' as int))
}

/// The value of a hexadecimal digit, either case.
pub open spec fn hex_val(c: char) -> int {
    if ('0' as int) <= c as int && c as int <= ('9' as int) {
        c as int - ('0' as int)
    } else if ('a' as int) <= c as int && c as int <= ('f' as int) {
        c as int - ('a' as int) + 10
    } else {
        c as int - ('A' as int) + 10
    }
}

/// The lowercase hex digit for a value in `0..=15`.
pub open spec fn hex_digit_char(v: int) -> char {
    if v == 0 {
        '0'
    } else if v == 1 {
        '1'
    } else if v == 2 {
        '2'
    } else if v == 3 {
        '3'
    } else if v == 4 {
        '4'
    } else if v == 5 {
        '5'
    } else if v == 6 {
        '6'
    } else if v == 7 {
        '7'
    } else if v == 8 {
        '8'
    } else if v == 9 {
        '9'
    } else if v == 10 {
        'a'
    } else if v == 11 {
        'b'
    } else if v == 12 {
        'c'
    } else if v == 13 {
        'd'
    } else if v == 14 {
        'e'
    } else {
        'f'
    }
}

/// The value of a hexadecimal character, or `None` where it is not one.
fn hex_val_exec(c: char) -> (r: Option<u8>)
    ensures
        match r {
            Some(v) => is_hex_digit(c) && v == hex_val(c),
            None => !is_hex_digit(c),
        },
{
    let u = c as u32;
    if 48 <= u && u <= 57 {
        Some((u - 48) as u8)
    } else if 97 <= u && u <= 102 {
        Some((u - 97 + 10) as u8)
    } else if 65 <= u && u <= 70 {
        Some((u - 65 + 10) as u8)
    } else {
        None
    }
}

/// The one-character string for a hex digit value in `0..=15`.
fn hex_digit_str(v: u8) -> (r: &'static str)
    requires
        v < 16,
    ensures
        r@ == seq![hex_digit_char(v as int)],
{
    proof {
        reveal_strlit("0");
        reveal_strlit("1");
        reveal_strlit("2");
        reveal_strlit("3");
        reveal_strlit("4");
        reveal_strlit("5");
        reveal_strlit("6");
        reveal_strlit("7");
        reveal_strlit("8");
        reveal_strlit("9");
        reveal_strlit("a");
        reveal_strlit("b");
        reveal_strlit("c");
        reveal_strlit("d");
        reveal_strlit("e");
        reveal_strlit("f");
    }
    let r: &'static str = if v == 0 {
        "0"
    } else if v == 1 {
        "1"
    } else if v == 2 {
        "2"
    } else if v == 3 {
        "3"
    } else if v == 4 {
        "4"
    } else if v == 5 {
        "5"
    } else if v == 6 {
        "6"
    } else if v == 7 {
        "7"
    } else if v == 8 {
        "8"
    } else if v == 9 {
        "9"
    } else if v == 10 {
        "a"
    } else if v == 11 {
        "b"
    } else if v == 12 {
        "c"
    } else if v == 13 {
        "d"
    } else if v == 14 {
        "e"
    } else {
        "f"
    };
    proof {
        assert(r@ =~= seq![hex_digit_char(v as int)]);
    }
    r
}

impl From<(u8, u8, u8)> for Color {
    /// Convert an 8-bit `(r, g, b)` triple; each channel becomes the
    /// exact value `byte / 255`.
    fn from(rgb: (u8, u8, u8)) -> (r: Color) {
        Color {
            red: Frac::from_byte(rgb.0),
            green: Frac::from_byte(rgb.1),
            blue: Frac::from_byte(rgb.2),
        }
    }
}

impl vstd::std_specs::convert::FromSpecImpl<(u8, u8, u8)> for Color {
    open spec fn obeys_from_spec() -> bool {
        true
    }

    open spec fn from_spec(rgb: (u8, u8, u8)) -> Color {
        spec_color_from_bytes(rgb.0, rgb.1, rgb.2)
    }
}

impl PartialEq for Color {
    /// Channel-wise value equality.
    fn eq(&self, other: &Color) -> (r: bool) {
        frac_eq_exec(self.red, other.red) && frac_eq_exec(self.green, other.green)
            && frac_eq_exec(self.blue, other.blue)
    }
}

impl vstd::std_specs::cmp::PartialEqSpecImpl for Color {
    open spec fn obeys_eq_spec() -> bool {
        true
    }

    open spec fn eq_spec(&self, other: &Color) -> bool {
        color_eq(*self, *other)
    }
}

impl PartialOrd for Color {
    /// Lexicographic comparison on `(red, green, blue)`; always `Some`.
    fn partial_cmp(&self, other: &Color) -> (r: Option<Ordering>) {
        if frac_lt_exec(self.red, other.red) {
            Some(Ordering::Less)
        } else if frac_lt_exec(other.red, self.red) {
            Some(Ordering::Greater)
        } else if frac_lt_exec(self.green, other.green) {
            Some(Ordering::Less)
        } else if frac_lt_exec(other.green, self.green) {
            Some(Ordering::Greater)
        } else if frac_lt_exec(self.blue, other.blue) {
            Some(Ordering::Less)
        } else if frac_lt_exec(other.blue, self.blue) {
            Some(Ordering::Greater)
        } else {
            Some(Ordering::Equal)
        }
    }
}

impl vstd::std_specs::cmp::PartialOrdSpecImpl for Color {
    open spec fn obeys_partial_cmp_spec() -> bool {
        true
    }

    open spec fn partial_cmp_spec(&self, other: &Color) -> Option<Ordering> {
        Some(color_cmp(*self, *other))
    }
}

/// Blending two values of one type into an ordered sequence of steps.
pub trait Blend: Sized + Copy {
    /// Two values that count as duplicates when a blend is collapsed.
    spec fn same(self, other: Self) -> bool;

    /// The inputs on which `blend` is defined; only machine limits are
    /// excluded.
    spec fn blend_pre(self, other: Self, midpoints: usize) -> bool;

    /// The exact sequence `blend` returns.
    spec fn blend_seq(self, other: Self, midpoints: usize) -> Seq<Self>;

    /// Decide `same`.
    fn same_as(&self, other: &Self) -> (r: bool)
        ensures
            r == self.same(*other),
    ;

    /// Blend `self` and `other` with `midpoints` intermediate steps. The
    /// result has `midpoints + 2` elements including both endpoints.
    fn blend(self, other: Self, midpoints: usize) -> (r: Vec<Self>)
        requires
            self.blend_pre(other, midpoints),
        ensures
            r@ == self.blend_seq(other, midpoints),
            r@.len() == midpoints + 2,
    ;

    /// As `blend`, then collapse each run of adjacent duplicates to its
    /// first element. The length of the result is not fixed.
    fn blend_unique(self, other: Self, midpoints: usize) -> (r: Vec<Self>)
        requires
            self.blend_pre(other, midpoints),
        ensures
            r@ == dedup_adjacent(
                self.blend_seq(other, midpoints),
                (|a: Self, b: Self| a.same(b)),
            ),
    {
        let all = self.blend(other, midpoints);
        let n = all.len();
        let mut out: Vec<Self> = Vec::new();
        let mut i: usize = 0;
        while i < n
            invariant
                i <= n,
                n == all@.len(),
                all@ == self.blend_seq(other, midpoints),
                out@ == dedup_adjacent(all@.take(i as int), (|a: Self, b: Self| a.same(b))),
            decreases n - i,
        {
            proof {
                assert(all@.take(i as int + 1).drop_last() =~= all@.take(i as int));
                assert(all@.take(i as int + 1).last() == all@[i as int]);
            }
            let keep = if out.len() == 0 {
                true
            } else {
                !out[out.len() - 1].same_as(&all[i])
            };
            if keep {
                out.push(all[i]);
            }
            i += 1;
        }
        proof {
            assert(all@.take(n as int) =~= all@);
        }
        out
    }
}

/// The sequence with each run of elements adjacent and equal under
/// `same` collapsed to its first element.
pub open spec fn dedup_adjacent<T>(s: Seq<T>, same: spec_fn(T, T) -> bool) -> Seq<T>
    decreases s.len(),
{
    if s.len() == 0 {
        Seq::empty()
    } else {
        let prefix = dedup_adjacent(s.drop_last(), same);
        if prefix.len() > 0 && same(prefix.last(), s.last()) {
            prefix
        } else {
            prefix.push(s.last())
        }
    }
}

/// One interpolation step between two channels: the exact value of
/// `s + (e - s) * (i / k)`, written as a rational over the common
/// denominator `s.den * e.den * k`.
pub open spec fn lerp_frac(s: Frac, e: Frac, i: int, k: int) -> Frac {
    Frac {
        num: (s.num * e.den * (k - i) + e.num * s.den * i) as u64,
        den: (s.den * e.den * k) as u64,
    }
}

/// One interpolation step between two colors, channel by channel.
pub open spec fn blend_step(s: Color, e: Color, i: int, k: int) -> Color {
    Color {
        red: lerp_frac(s.red, e.red, i, k),
        green: lerp_frac(s.green, e.green, i, k),
        blue: lerp_frac(s.blue, e.blue, i, k),
    }
}

impl Blend for Color {
    open spec fn same(self, other: Color) -> bool {
        color_eq(self, other)
    }

    open spec fn blend_pre(self, other: Color, midpoints: usize) -> bool {
        &&& self.wf()
        &&& other.wf()
        &&& midpoints + 2 <= usize::MAX
        &&& self.red.den * other.red.den * (midpoints + 1) <= u64::MAX
        &&& self.green.den * other.green.den * (midpoints + 1) <= u64::MAX
        &&& self.blue.den * other.blue.den * (midpoints + 1) <= u64::MAX
    }

    open spec fn blend_seq(self, other: Color, midpoints: usize) -> Seq<Color> {
        Seq::new((midpoints + 2) as nat, |i: int| blend_step(self, other, i, midpoints + 1))
    }

    fn same_as(&self, other: &Color) -> (r: bool) {
        frac_eq_exec(self.red, other.red) && frac_eq_exec(self.green, other.green)
            && frac_eq_exec(self.blue, other.blue)
    }

    fn blend(self, other: Color, midpoints: usize) -> (r: Vec<Color>) {
        proof {
            assert(midpoints + 1 <= u64::MAX) by (nonlinear_arith)
                requires
                    1 <= self.red.den as int,
                    1 <= other.red.den as int,
                    0 <= midpoints as int,
                    (self.red.den as int) * (other.red.den as int) * (midpoints as int + 1)
                        <= u64::MAX,
            {}
        }
        let total: usize = midpoints + 2;
        let k: u64 = midpoints as u64 + 1;
        let mut out: Vec<Color> = Vec::new();
        let mut i: usize = 0;
        while i < total
            invariant
                total == midpoints + 2,
                k == midpoints + 1,
                i <= total,
                out@.len() == i as int,
                self.blend_pre(other, midpoints),
                forall|j: int| 0 <= j < i as int ==> out@[j] == blend_step(
                    self,
                    other,
                    j,
                    k as int,
                ),
            decreases total - i,
        {
            let c = Color {
                red: lerp_channel(self.red, other.red, i as u64, k),
                green: lerp_channel(self.green, other.green, i as u64, k),
                blue: lerp_channel(self.blue, other.blue, i as u64, k),
            };
            out.push(c);
            i += 1;
        }
        proof {
            assert(out@ =~= self.blend_seq(other, midpoints));
        }
        out
    }
}

/// Bounds for one interpolation step: the numerator never exceeds the
/// common denominator, and both fit in 64 bits.
proof fn lemma_lerp_bounds(s: Frac, e: Frac, i: int, k: int)
    requires
        s.wf(),
        e.wf(),
        0 <= i <= k,
        1 <= k,
        s.den * e.den * k <= u64::MAX,
    ensures
        1 <= s.den * e.den * k,
        s.den * e.den <= s.den * e.den * k,
        s.num * e.den <= s.den * e.den,
        e.num * s.den <= s.den * e.den,
        0 <= s.num * e.den * (k - i),
        0 <= e.num * s.den * i,
        s.num * e.den * (k - i) + e.num * s.den * i <= s.den * e.den * k,
        lerp_frac(s, e, i, k).wf(),
{
    let sn = s.num as int;
    let sd = s.den as int;
    let en = e.num as int;
    let ed = e.den as int;
    assert(1 <= sd * ed * k) by (nonlinear_arith)
        requires
            1 <= sd,
            1 <= ed,
            1 <= k,
    {}
    assert(sd * ed <= sd * ed * k) by (nonlinear_arith)
        requires
            1 <= sd,
            1 <= ed,
            1 <= k,
    {}
    assert(sn * ed <= sd * ed) by (nonlinear_arith)
        requires
            0 <= sn <= sd,
            0 <= ed,
    {}
    assert(en * sd <= sd * ed) by (nonlinear_arith)
        requires
            0 <= en <= ed,
            0 <= sd,
    {}
    assert(0 <= sn * ed * (k - i)) by (nonlinear_arith)
        requires
            0 <= sn,
            0 <= ed,
            i <= k,
    {}
    assert(0 <= en * sd * i) by (nonlinear_arith)
        requires
            0 <= en,
            0 <= sd,
            0 <= i,
    {}
    assert(sn * ed * (k - i) + en * sd * i <= sd * ed * k) by (nonlinear_arith)
        requires
            0 <= sn <= sd,
            0 <= en <= ed,
            0 <= ed,
            0 <= sd,
            0 <= i <= k,
    {}
}

/// One interpolation step between two channels, computed exactly.
fn lerp_channel(s: Frac, e: Frac, i: u64, k: u64) -> (r: Frac)
    requires
        s.wf(),
        e.wf(),
        i <= k,
        1 <= k,
        s.den * e.den * k <= u64::MAX,
    ensures
        r == lerp_frac(s, e, i as int, k as int),
        r.wf(),
{
    proof {
        lemma_lerp_bounds(s, e, i as int, k as int);
    }
    let sn = s.num as u128;
    let sd = s.den as u128;
    let en = e.num as u128;
    let ed = e.den as u128;
    let ii = i as u128;
    let kk = k as u128;
    let den = sd * ed * kk;
    let num = sn * ed * (kk - ii) + en * sd * ii;
    Frac { num: num as u64, den: den as u64 }
}

/// Color value equality is symmetric.
pub proof fn lemma_color_eq_symmetric(a: Color, b: Color)
    ensures
        color_eq(a, b) == color_eq(b, a),
{
}

/// Color value equality is transitive across a well-formed middle color.
pub proof fn lemma_color_eq_transitive(a: Color, b: Color, c: Color)
    requires
        b.wf(),
        color_eq(a, b),
        color_eq(b, c),
    ensures
        color_eq(a, c),
{
    lemma_frac_eq_transitive(a.red, b.red, c.red);
    lemma_frac_eq_transitive(a.green, b.green, c.green);
    lemma_frac_eq_transitive(a.blue, b.blue, c.blue);
}

/// A step of a blend of a channel with itself keeps its value.
proof fn lemma_lerp_self_channel(f: Frac, i: int, k: int)
    requires
        f.wf(),
        0 <= i <= k,
        1 <= k,
        f.den * f.den * k <= u64::MAX,
    ensures
        frac_eq(lerp_frac(f, f, i, k), f),
{
    lemma_lerp_bounds(f, f, i, k);
    let n = f.num as int;
    let d = f.den as int;
    assert(n * d * (k - i) + n * d * i == n * d * k) by (nonlinear_arith) {}
    assert((n * d * k) * d == n * (d * d * k)) by (nonlinear_arith) {}
}

/// The first and last steps of a blend of two channels keep the start and
/// end values.
proof fn lemma_lerp_endpoint_channel(s: Frac, e: Frac, k: int)
    requires
        s.wf(),
        e.wf(),
        1 <= k,
        s.den * e.den * k <= u64::MAX,
    ensures
        frac_eq(lerp_frac(s, e, 0, k), s),
        frac_eq(lerp_frac(s, e, k, k), e),
{
    lemma_lerp_bounds(s, e, 0, k);
    lemma_lerp_bounds(s, e, k, k);
    let sn = s.num as int;
    let sd = s.den as int;
    let en = e.num as int;
    let ed = e.den as int;
    assert(sn * ed * (k - 0) + en * sd * 0 == sn * ed * k) by (nonlinear_arith) {}
    assert((sn * ed * k) * sd == sn * (sd * ed * k)) by (nonlinear_arith) {}
    assert(sn * ed * (k - k) + en * sd * k == en * sd * k) by (nonlinear_arith) {}
    assert((en * sd * k) * ed == en * (sd * ed * k)) by (nonlinear_arith) {}
}

/// Blending a color with itself yields a sequence of `midpoints + 2`
/// elements, every one of them equal to that color.
pub proof fn lemma_blend_self(c: Color, midpoints: usize)
    requires
        c.blend_pre(c, midpoints),
    ensures
        c.blend_seq(c, midpoints).len() == midpoints + 2,
        forall|i: int|
            0 <= i < midpoints + 2 ==> color_eq(#[trigger] c.blend_seq(c, midpoints)[i], c),
{
    let k = midpoints as int + 1;
    assert forall|i: int| 0 <= i < midpoints + 2 implies color_eq(
        c.blend_seq(c, midpoints)[i],
        c,
    ) by {
        lemma_lerp_self_channel(c.red, i, k);
        lemma_lerp_self_channel(c.green, i, k);
        lemma_lerp_self_channel(c.blue, i, k);
    }
}

/// The first element of a blend is exactly the start color and the last
/// exactly the end color, as values.
pub proof fn lemma_blend_endpoints(s: Color, e: Color, midpoints: usize)
    requires
        s.blend_pre(e, midpoints),
    ensures
        color_eq(s.blend_seq(e, midpoints).first(), s),
        color_eq(s.blend_seq(e, midpoints).last(), e),
{
    let k = midpoints as int + 1;
    lemma_lerp_endpoint_channel(s.red, e.red, k);
    lemma_lerp_endpoint_channel(s.green, e.green, k);
    lemma_lerp_endpoint_channel(s.blue, e.blue, k);
}

/// Every element of a blend is a well-formed color.
pub proof fn lemma_blend_seq_wf(s: Color, e: Color, midpoints: usize)
    requires
        s.blend_pre(e, midpoints),
    ensures
        forall|i: int|
            0 <= i < midpoints + 2 ==> (#[trigger] s.blend_seq(e, midpoints)[i]).wf(),
{
    let k = midpoints as int + 1;
    assert forall|i: int| 0 <= i < midpoints + 2 implies (s.blend_seq(e, midpoints)[i]).wf() by {
        lemma_lerp_bounds(s.red, e.red, i, k);
        lemma_lerp_bounds(s.green, e.green, i, k);
        lemma_lerp_bounds(s.blue, e.blue, i, k);
    }
}

/// With value-equal endpoints and no midpoints, the collapsed blend has
/// exactly one element. The relation handed in must be color value
/// equality, as it is in `blend_unique`.
pub proof fn lemma_blend_unique_collapses(s: Color, e: Color, same: spec_fn(Color, Color) -> bool)
    requires
        s.blend_pre(e, 0),
        color_eq(s, e),
        forall|a: Color, b: Color| #[trigger] same(a, b) == color_eq(a, b),
    ensures
        dedup_adjacent(s.blend_seq(e, 0), same).len() == 1,
{
    let q = s.blend_seq(e, 0);
    lemma_blend_endpoints(s, e, 0);
    assert(q.len() == 2);
    assert(q.first() == q[0]);
    assert(q.last() == q[1]);
    lemma_color_eq_transitive(q[0], s, e);
    lemma_color_eq_symmetric(q[1], e);
    lemma_color_eq_transitive(q[0], e, q[1]);
    let q1 = q.drop_last();
    assert(q1.len() == 1);
    assert(q1.drop_last() =~= Seq::<Color>::empty());
    assert(dedup_adjacent(q1.drop_last(), same) =~= Seq::<Color>::empty());
    assert(dedup_adjacent(q1, same) =~= seq![q[0]]);
    assert(dedup_adjacent(q, same) =~= seq![q[0]]);
}

/// All sixteen digit values survive the encode/decode round trip.
proof fn lemma_hex_digit_roundtrip()
    ensures
        forall|v: int|
            0 <= v < 16 ==> is_hex_digit(#[trigger] hex_digit_char(v)) && hex_val(
                hex_digit_char(v),
            ) == v,
{
}

/// Encoding a color built from three 8-bit channels as hex text and
/// parsing that text back returns exactly that color.
pub proof fn lemma_hex_roundtrip(r: u8, g: u8, b: u8)
    ensures
        hex_ok(spec_to_hex(spec_color_from_bytes(r, g, b))),
        parsed_color(spec_to_hex(spec_color_from_bytes(r, g, b))) == spec_color_from_bytes(
            r,
            g,
            b,
        ),
{
    let c = spec_color_from_bytes(r, g, b);
    let s = spec_to_hex(c);
    lemma_byte_roundtrip(r);
    lemma_byte_roundtrip(g);
    lemma_byte_roundtrip(b);
    lemma_hex_digit_roundtrip();
    assert(byte_of(c.red) == r);
    assert(byte_of(c.green) == g);
    assert(byte_of(c.blue) == b);
    assert forall|i: int| 1 <= i < 7 implies is_hex_digit(#[trigger] s[i]) by {
        assert(s[1] == hex_digit_char(r as int / 16));
        assert(s[2] == hex_digit_char(r as int % 16));
        assert(s[3] == hex_digit_char(g as int / 16));
        assert(s[4] == hex_digit_char(g as int % 16));
        assert(s[5] == hex_digit_char(b as int / 16));
        assert(s[6] == hex_digit_char(b as int % 16));
    }
    assert(pair_val(s, 1) == r);
    assert(pair_val(s, 3) == g);
    assert(pair_val(s, 5) == b);
}

} // verus!
