use vstd::prelude::*;
use vstd::string::StringExecFns;

verus! {

/// The largest value of a 16-bit linear channel, which stands for full intensity.
pub const LINEAR_MAX: u16 = 65535;

/// Weights of the red, green and blue linear channels in the luma sum
/// (the Rec. 709 coefficients, scaled by ten thousand).
pub const LUMA_RED: u64 = 2126;
pub const LUMA_GREEN: u64 = 7152;
pub const LUMA_BLUE: u64 = 722;

/// A color as stored in an image: three gamma-encoded 8-bit channels.
#[derive(Clone, Copy, Debug, PartialEq, Eq, Structural)]
pub struct Rgb8 {
    pub r: u8,
    pub g: u8,
    pub b: u8,
}

/// A working color: three linear-light channels in 16-bit fixed point,
/// where `LINEAR_MAX` stands for 1.0.
#[derive(Clone, Copy, Debug, PartialEq, Eq, Structural)]
pub struct LinearRgb {
    pub r: u16,
    pub g: u16,
    pub b: u16,
}

impl LinearRgb {
    pub fn new(r: u16, g: u16, b: u16) -> (c: LinearRgb)
        ensures
            c == (LinearRgb { r, g, b }),
    {
        LinearRgb { r, g, b }
    }

    /// Pure black.
    pub fn black() -> (c: LinearRgb)
        ensures
            c == (LinearRgb { r: 0, g: 0, b: 0 }),
    {
        LinearRgb { r: 0, g: 0, b: 0 }
    }

    /// Pure white.
    pub fn white() -> (c: LinearRgb)
        ensures
            c == (LinearRgb { r: LINEAR_MAX, g: LINEAR_MAX, b: LINEAR_MAX }),
    {
        LinearRgb { r: LINEAR_MAX, g: LINEAR_MAX, b: LINEAR_MAX }
    }
}

/// Luma of a working color: a fixed weighting of its linear channels.
pub open spec fn luma_of(c: LinearRgb) -> nat {
    (LUMA_RED * c.r + LUMA_GREEN * c.g + LUMA_BLUE * c.b) as nat
}

/// Computes the luma of a working color.
pub fn luma(c: &LinearRgb) -> (l: u64)
    ensures
        l == luma_of(*c),
{
    LUMA_RED * (c.r as u64) + LUMA_GREEN * (c.g as u64) + LUMA_BLUE * (c.b as u64)
}

/// Squared Euclidean distance between two working colors.
pub open spec fn dist_sq(a: LinearRgb, b: LinearRgb) -> nat {
    ((a.r - b.r) * (a.r - b.r) + (a.g - b.g) * (a.g - b.g) + (a.b - b.b) * (a.b - b.b)) as nat
}

proof fn lemma_square_bound(x: int, y: int)
    requires
        0 <= x <= 65535,
        0 <= y <= 65535,
    ensures
        0 <= (x - y) * (x - y) <= 65535 * 65535,
{
    assert(0 <= (x - y) * (x - y) <= 65535 * 65535) by (nonlinear_arith)
        requires
            -65535 <= x - y <= 65535,
    ;
}

/// Computes the squared Euclidean distance between two working colors.
pub fn distance_sq(a: &LinearRgb, b: &LinearRgb) -> (d: u64)
    ensures
        d == dist_sq(*a, *b),
        d <= 3 * 65535 * 65535,
{
    proof {
        lemma_square_bound(a.r as int, b.r as int);
        lemma_square_bound(a.g as int, b.g as int);
        lemma_square_bound(a.b as int, b.b as int);
    }
    let dr: i64 = a.r as i64 - b.r as i64;
    let dg: i64 = a.g as i64 - b.g as i64;
    let db: i64 = a.b as i64 - b.b as i64;
    ((dr * dr) as u64) + ((dg * dg) as u64) + ((db * db) as u64)
}

/// The lowercase hexadecimal digit for a value below sixteen.
pub open spec fn hex_digit(v: int) -> char {
    if v < 10 {
        ('0' as int + v) as char
    } else {
        ('a' as int + (v - 10)) as char
    }
}

/// The two lowercase hexadecimal digits of a byte.
pub open spec fn hex_byte(v: u8) -> Seq<char> {
    seq![hex_digit(v as int / 16), hex_digit(v as int % 16)]
}

/// The `#rrggbb` form of a stored color.
pub open spec fn hex_of(c: Rgb8) -> Seq<char> {
    seq!['#'] + hex_byte(c.r) + hex_byte(c.g) + hex_byte(c.b)
}

fn digit_str(v: u8) -> (s: &'static str)
    requires
        v < 16,
    ensures
        s@ == seq![hex_digit(v as int)],
{
    match v {
        0 => { proof { reveal_strlit("0"); } "0" },
        1 => { proof { reveal_strlit("1"); } "1" },
        2 => { proof { reveal_strlit("2"); } "2" },
        3 => { proof { reveal_strlit("3"); } "3" },
        4 => { proof { reveal_strlit("4"); } "4" },
        5 => { proof { reveal_strlit("5"); } "5" },
        6 => { proof { reveal_strlit("6"); } "6" },
        7 => { proof { reveal_strlit("7"); } "7" },
        8 => { proof { reveal_strlit("8"); } "8" },
        9 => { proof { reveal_strlit("9"); } "9" },
        10 => { proof { reveal_strlit("a"); } "a" },
        11 => { proof { reveal_strlit("b"); } "b" },
        12 => { proof { reveal_strlit("c"); } "c" },
        13 => { proof { reveal_strlit("d"); } "d" },
        14 => { proof { reveal_strlit("e"); } "e" },
        _ => { proof { reveal_strlit("f"); } "f" },
    }
}

fn push_hex_byte(s: &mut String, v: u8)
    ensures
        final(s)@ == old(s)@ + hex_byte(v),
{
    s.append(digit_str(v / 16));
    s.append(digit_str(v % 16));
    assert(final(s)@ =~= old(s)@ + hex_byte(v));
}

/// Renders a stored color as `#rrggbb`, two lowercase hexadecimal digits per channel.
pub fn hex_string(c: &Rgb8) -> (s: String)
    ensures
        s@ == hex_of(*c),
{
    let mut s = String::new();
    proof { reveal_strlit("#"); }
    s.append("#");
    push_hex_byte(&mut s, c.r);
    push_hex_byte(&mut s, c.g);
    push_hex_byte(&mut s, c.b);
    assert(s@ =~= hex_of(*c));
    s
}

} // verus!
