//! sRGB hex colour parsing.
//!
//! Accepts `#rrggbb` (alpha = 255) and `#rrggbbaa`.
//! All hex digits may be upper- or lower-case.
use vstd::prelude::*;
use vstd::string::StringSliceAdditionalSpecFns;

verus! {

/// ASCII `#`.
const HASH: u8 = 0x23;
/// ASCII `0` and `9`.
const DIGIT_0: u8 = 0x30;
const DIGIT_9: u8 = 0x39;
/// ASCII `a` and `f`.
const LOWER_A: u8 = 0x61;
const LOWER_F: u8 = 0x66;
/// ASCII `A` and `F`.
const UPPER_A: u8 = 0x41;
const UPPER_F: u8 = 0x46;

/// A straight (un-pre-multiplied) sRGB colour with 8-bit channels.
#[derive(Debug, Clone, Copy, PartialEq, Eq, Structural)]
pub struct Color {
    pub r: u8,
    pub g: u8,
    pub b: u8,
    pub a: u8,
}

impl Color {
    /// A colour from its four sRGB channels.
    pub fn srgb(r: u8, g: u8, b: u8, a: u8) -> (c: Color)
        ensures
            c == (Color { r, g, b, a }),
    {
        Color { r, g, b, a }
    }
}

/// The value (0–15) of an ASCII hex digit, or `None` for any other byte.
pub open spec fn hex_digit_value(b: u8) -> Option<u8> {
    if 0x30 <= b <= 0x39 {
        Some((b - 0x30) as u8)
    } else if 0x61 <= b <= 0x66 {
        Some((b - 0x61 + 10) as u8)
    } else if 0x41 <= b <= 0x46 {
        Some((b - 0x41 + 10) as u8)
    } else {
        None
    }
}

/// The byte written by the two hex digits `hi lo`, or `None` when either is
/// not a hex digit.
pub open spec fn hex_pair_value(hi: u8, lo: u8) -> Option<u8> {
    match (hex_digit_value(hi), hex_digit_value(lo)) {
        (Some(h), Some(l)) => Some((16 * h + l) as u8),
        _ => None,
    }
}

/// The colour written by `bytes`: `#` followed by exactly six hex digits
/// (alpha 255) or exactly eight hex digits (alpha from the last pair).
pub open spec fn srgb_hex_color(bytes: Seq<u8>) -> Option<Color> {
    if bytes.len() == 0 || bytes[0] != 0x23 {
        None
    } else if bytes.len() == 7 {
        match (
            hex_pair_value(bytes[1], bytes[2]),
            hex_pair_value(bytes[3], bytes[4]),
            hex_pair_value(bytes[5], bytes[6]),
        ) {
            (Some(r), Some(g), Some(b)) => Some(Color { r, g, b, a: 255 }),
            _ => None,
        }
    } else if bytes.len() == 9 {
        match (
            hex_pair_value(bytes[1], bytes[2]),
            hex_pair_value(bytes[3], bytes[4]),
            hex_pair_value(bytes[5], bytes[6]),
            hex_pair_value(bytes[7], bytes[8]),
        ) {
            (Some(r), Some(g), Some(b), Some(a)) => Some(Color { r, g, b, a }),
            _ => None,
        }
    } else {
        None
    }
}

/// ASCII lower-casing of one byte: `A`..`Z` become `a`..`z`, every other
/// byte is kept.
pub open spec fn ascii_lower(b: u8) -> u8 {
    if 0x41 <= b <= 0x5a {
        (b + 0x20) as u8
    } else {
        b
    }
}

/// Hex digits may be written in either case: lower-casing the ASCII letters of
/// the input never changes what it parses to.
pub proof fn lemma_srgb_hex_case_insensitive(bytes: Seq<u8>)
    ensures
        srgb_hex_color(bytes) == srgb_hex_color(bytes.map_values(|b: u8| ascii_lower(b))),
{
    let lower = bytes.map_values(|b: u8| ascii_lower(b));
    assert forall|i: int| 0 <= i < bytes.len() implies hex_digit_value(#[trigger] lower[i])
        == hex_digit_value(bytes[i]) by {}
}

/// `#rrggbb` is the opaque shorthand of `#rrggbbff`: appending an `ff` alpha
/// pair to a six-digit colour parses to the same colour.
pub proof fn lemma_srgb_hex_opaque_shorthand(bytes: Seq<u8>)
    requires
        bytes.len() == 7,
    ensures
        srgb_hex_color(bytes) == srgb_hex_color(bytes + seq![0x66u8, 0x66u8]),
        srgb_hex_color(bytes) == srgb_hex_color(bytes + seq![0x46u8, 0x46u8]),
{
    let a = bytes + seq![0x66u8, 0x66u8];
    let b = bytes + seq![0x46u8, 0x46u8];
    assert(forall|i: int| 0 <= i < 7 ==> a[i] == bytes[i] && b[i] == bytes[i]);
    assert(a[7] == 0x66 && a[8] == 0x66 && b[7] == 0x46 && b[8] == 0x46);
}

/// The ASCII hex digit that writes the value `d` (0–15): `0`–`9`, then
/// `a`–`f`, or `A`–`F` when `upper`.
pub open spec fn hex_digit_char(d: int, upper: bool) -> u8 {
    if d < 10 {
        (0x30 + d) as u8
    } else if upper {
        (0x41 + d - 10) as u8
    } else {
        (0x61 + d - 10) as u8
    }
}

/// Every hex digit, in either case, stands for its usual value, and no other
/// byte is a hex digit.
pub proof fn lemma_hex_digits_have_their_values(b: u8)
    ensures
        forall|d: int, upper: bool|
            0 <= d < 16 ==> #[trigger] hex_digit_value(hex_digit_char(d, upper)) == Some(d as u8),
        (forall|d: int, upper: bool| 0 <= d < 16 ==> b != #[trigger] hex_digit_char(d, upper))
            ==> hex_digit_value(b) is None,
{
    if hex_digit_value(b) is Some {
        if b <= 0x39 {
            assert(b == hex_digit_char(b - 0x30, false));
        } else if b >= 0x61 {
            assert(b == hex_digit_char(b - 0x61 + 10, false));
        } else {
            assert(b == hex_digit_char(b - 0x41 + 10, true));
        }
    }
}

/// `#` followed by six hex digits (each in either case) parses to the opaque
/// colour whose channels are the three two-digit values, high digit first.
pub proof fn lemma_six_digit_hex_parses(h: Seq<int>, upper: Seq<bool>)
    requires
        h.len() == 6,
        upper.len() == 6,
        forall|i: int| 0 <= i < 6 ==> 0 <= #[trigger] h[i] < 16,
    ensures
        srgb_hex_color(
            seq![
                0x23u8,
                hex_digit_char(h[0], upper[0]),
                hex_digit_char(h[1], upper[1]),
                hex_digit_char(h[2], upper[2]),
                hex_digit_char(h[3], upper[3]),
                hex_digit_char(h[4], upper[4]),
                hex_digit_char(h[5], upper[5]),
            ],
        ) == Some(
            Color {
                r: (16 * h[0] + h[1]) as u8,
                g: (16 * h[2] + h[3]) as u8,
                b: (16 * h[4] + h[5]) as u8,
                a: 255,
            },
        ),
{
    lemma_hex_digits_have_their_values(0);
    assert(0 <= h[0] < 16 && 0 <= h[1] < 16 && 0 <= h[2] < 16);
    assert(0 <= h[3] < 16 && 0 <= h[4] < 16 && 0 <= h[5] < 16);
    assert(hex_digit_value(hex_digit_char(h[0], upper[0])) == Some(h[0] as u8));
    assert(hex_digit_value(hex_digit_char(h[1], upper[1])) == Some(h[1] as u8));
    assert(hex_digit_value(hex_digit_char(h[2], upper[2])) == Some(h[2] as u8));
    assert(hex_digit_value(hex_digit_char(h[3], upper[3])) == Some(h[3] as u8));
    assert(hex_digit_value(hex_digit_char(h[4], upper[4])) == Some(h[4] as u8));
    assert(hex_digit_value(hex_digit_char(h[5], upper[5])) == Some(h[5] as u8));
}

/// `#` followed by eight hex digits (each in either case) parses to the colour
/// whose four channels (alpha last) are the two-digit values, high digit first.
pub proof fn lemma_eight_digit_hex_parses(h: Seq<int>, upper: Seq<bool>)
    requires
        h.len() == 8,
        upper.len() == 8,
        forall|i: int| 0 <= i < 8 ==> 0 <= #[trigger] h[i] < 16,
    ensures
        srgb_hex_color(
            seq![
                0x23u8,
                hex_digit_char(h[0], upper[0]),
                hex_digit_char(h[1], upper[1]),
                hex_digit_char(h[2], upper[2]),
                hex_digit_char(h[3], upper[3]),
                hex_digit_char(h[4], upper[4]),
                hex_digit_char(h[5], upper[5]),
                hex_digit_char(h[6], upper[6]),
                hex_digit_char(h[7], upper[7]),
            ],
        ) == Some(
            Color {
                r: (16 * h[0] + h[1]) as u8,
                g: (16 * h[2] + h[3]) as u8,
                b: (16 * h[4] + h[5]) as u8,
                a: (16 * h[6] + h[7]) as u8,
            },
        ),
{
    lemma_hex_digits_have_their_values(0);
    assert(0 <= h[0] < 16 && 0 <= h[1] < 16 && 0 <= h[2] < 16 && 0 <= h[3] < 16);
    assert(0 <= h[4] < 16 && 0 <= h[5] < 16 && 0 <= h[6] < 16 && 0 <= h[7] < 16);
    assert(hex_digit_value(hex_digit_char(h[0], upper[0])) == Some(h[0] as u8));
    assert(hex_digit_value(hex_digit_char(h[1], upper[1])) == Some(h[1] as u8));
    assert(hex_digit_value(hex_digit_char(h[2], upper[2])) == Some(h[2] as u8));
    assert(hex_digit_value(hex_digit_char(h[3], upper[3])) == Some(h[3] as u8));
    assert(hex_digit_value(hex_digit_char(h[4], upper[4])) == Some(h[4] as u8));
    assert(hex_digit_value(hex_digit_char(h[5], upper[5])) == Some(h[5] as u8));
    assert(hex_digit_value(hex_digit_char(h[6], upper[6])) == Some(h[6] as u8));
    assert(hex_digit_value(hex_digit_char(h[7], upper[7])) == Some(h[7] as u8));
}

/// Only `#` followed by six or eight bytes can parse.
pub proof fn lemma_srgb_hex_shape(bytes: Seq<u8>)
    ensures
        srgb_hex_color(bytes) is Some ==> bytes[0] == 0x23u8 && (bytes.len() == 7 || bytes.len()
            == 9),
        srgb_hex_color(bytes) is Some && bytes.len() == 7 ==> srgb_hex_color(bytes).unwrap().a == 255,
{
}

/// Parse an sRGB hex color string into a [`Color`].
///
/// Accepts `#rrggbb` (opaque, alpha = 255) and `#rrggbbaa`.
/// Returns `None` on any malformed input; never panics.
pub fn parse_srgb_hex(s: &str) -> (c: Option<Color>)
    ensures
        c == srgb_hex_color(s.spec_bytes()),
{
    let bytes = s.as_bytes();
    if bytes.len() == 0 || bytes[0] != HASH {
        return None;
    }
    let n = bytes.len() - 1;
    if n == 6 {
        let r = from_hex2(bytes[1], bytes[2])?;
        let g = from_hex2(bytes[3], bytes[4])?;
        let b = from_hex2(bytes[5], bytes[6])?;
        Some(Color { r, g, b, a: 255 })
    } else if n == 8 {
        let r = from_hex2(bytes[1], bytes[2])?;
        let g = from_hex2(bytes[3], bytes[4])?;
        let b = from_hex2(bytes[5], bytes[6])?;
        let a = from_hex2(bytes[7], bytes[8])?;
        Some(Color { r, g, b, a })
    } else {
        None
    }
}

/// Decode two ASCII hex digits into a `u8`.  Returns `None` if either byte is
/// not a valid ASCII hex digit.
fn from_hex2(hi: u8, lo: u8) -> (v: Option<u8>)
    ensures
        v == hex_pair_value(hi, lo),
{
    let h = hex_nibble(hi)?;
    let l = hex_nibble(lo)?;
    assert((h << 4u8) | l == 16 * h + l) by (bit_vector)
        requires
            h < 16,
            l < 16,
    ;
    Some((h << 4u8) | l)
}

/// Decode a single ASCII hex digit into its nibble value (0–15).
fn hex_nibble(b: u8) -> (v: Option<u8>)
    ensures
        v == hex_digit_value(b),
        v matches Some(x) ==> x < 16,
{
    if DIGIT_0 <= b && b <= DIGIT_9 {
        Some(b - DIGIT_0)
    } else if LOWER_A <= b && b <= LOWER_F {
        Some(b - LOWER_A + 10)
    } else if UPPER_A <= b && b <= UPPER_F {
        Some(b - UPPER_A + 10)
    } else {
        None
    }
}

} // verus!
