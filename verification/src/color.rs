//! Colours and paint references as scenes write them: `"#rgb"`,
//! `"#rrggbb"`, `"#rrggbbaa"`, or `"gradient:<name>"`.

use vstd::prelude::*;

use crate::text::{chars_of, string_of, trim, trim_bounds};

verus! {

broadcast use vstd::string::group_string_axioms;

#[derive(Debug, Clone, Copy, PartialEq, Eq, Structural)]
pub struct Rgba(pub u8, pub u8, pub u8, pub u8);

/// Opaque white.
pub open spec fn white() -> Rgba {
    Rgba(255, 255, 255, 255)
}

impl Rgba {
    /// Opaque white.
    pub fn white() -> (c: Rgba)
        ensures
            c == white(),
    {
        Rgba(255, 255, 255, 255)
    }

    /// Opaque black.
    pub fn black() -> (c: Rgba)
        ensures
            c == Rgba(0, 0, 0, 255),
    {
        Rgba(0, 0, 0, 255)
    }
}

/// Value of a hexadecimal digit character.
pub open spec fn hex_digit(c: char) -> Option<u8> {
    if '0' <= c && c <= '9' {
        Some((c as u32 - '0' as u32) as u8)
    } else if 'a' <= c && c <= 'f' {
        Some((c as u32 - 'a' as u32 + 10) as u8)
    } else if 'A' <= c && c <= 'F' {
        Some((c as u32 - 'A' as u32 + 10) as u8)
    } else {
        None
    }
}

/// The byte two hex digits spell, high digit first.
pub open spec fn hex_byte(a: char, b: char) -> Option<u8> {
    match (hex_digit(a), hex_digit(b)) {
        (Some(x), Some(y)) => Some((x * 16 + y) as u8),
        _ => None,
    }
}

/// The value of a one-digit field.
pub open spec fn hex_nibble(a: char) -> Option<u8> {
    hex_digit(a)
}

/// The colour `s` names, when it is `#` followed by 3, 6 or 8 hex digits.
pub open spec fn parse_color(s: Seq<char>) -> Option<Rgba> {
    if s.len() == 0 || s[0] != '#' {
        None
    } else {
        let h = s.drop_first();
        if h.len() == 3 {
            match (hex_nibble(h[0]), hex_nibble(h[1]), hex_nibble(h[2])) {
                (Some(r), Some(g), Some(b)) => Some(Rgba((r * 17) as u8, (g * 17) as u8, (b * 17) as u8, 255)),
                _ => None,
            }
        } else if h.len() == 6 {
            match (hex_byte(h[0], h[1]), hex_byte(h[2], h[3]), hex_byte(h[4], h[5])) {
                (Some(r), Some(g), Some(b)) => Some(Rgba(r, g, b, 255)),
                _ => None,
            }
        } else if h.len() == 8 {
            match (
                hex_byte(h[0], h[1]),
                hex_byte(h[2], h[3]),
                hex_byte(h[4], h[5]),
                hex_byte(h[6], h[7]),
            ) {
                (Some(r), Some(g), Some(b), Some(a)) => Some(Rgba(r, g, b, a)),
                _ => None,
            }
        } else {
            None
        }
    }
}

fn hex_digit_of(c: char) -> (r: Option<u8>)
    ensures
        r == hex_digit(c),
{
    if '0' <= c && c <= '9' {
        Some((c as u32 - '0' as u32) as u8)
    } else if 'a' <= c && c <= 'f' {
        Some((c as u32 - 'a' as u32 + 10) as u8)
    } else if 'A' <= c && c <= 'F' {
        Some((c as u32 - 'A' as u32 + 10) as u8)
    } else {
        None
    }
}

fn hex_byte_of(a: char, b: char) -> (r: Option<u8>)
    ensures
        r == hex_byte(a, b),
{
    match (hex_digit_of(a), hex_digit_of(b)) {
        (Some(x), Some(y)) => Some(x * 16 + y),
        _ => None,
    }
}

impl Rgba {
    /// Parse `#rgb`, `#rrggbb` or `#rrggbbaa`.
    pub fn parse(s: &str) -> (r: Option<Rgba>)
        ensures
            r == parse_color(s@),
    {
        let v = chars_of(s);
        if v.len() == 0 || v[0] != '#' {
            return None;
        }
        let ghost h = v@.drop_first();
        let n = v.len() - 1;
        if n == 3 {
            match (hex_digit_of(v[1]), hex_digit_of(v[2]), hex_digit_of(v[3])) {
                (Some(r), Some(g), Some(b)) => Some(Rgba(r * 17, g * 17, b * 17, 255)),
                _ => None,
            }
        } else if n == 6 {
            match (hex_byte_of(v[1], v[2]), hex_byte_of(v[3], v[4]), hex_byte_of(v[5], v[6])) {
                (Some(r), Some(g), Some(b)) => Some(Rgba(r, g, b, 255)),
                _ => None,
            }
        } else if n == 8 {
            match (
                hex_byte_of(v[1], v[2]),
                hex_byte_of(v[3], v[4]),
                hex_byte_of(v[5], v[6]),
                hex_byte_of(v[7], v[8]),
            ) {
                (Some(r), Some(g), Some(b), Some(a)) => Some(Rgba(r, g, b, a)),
                _ => None,
            }
        } else {
            None
        }
    }
}

/// The digit `d` (below 16) as `{:x}` writes it, or as `{:X}` when `upper`.
pub open spec fn hex_char(d: u8, upper: bool) -> char {
    if d < 10 {
        (d + '0' as u32) as char
    } else if upper {
        (d - 10 + 'A' as u32) as char
    } else {
        (d - 10 + 'a' as u32) as char
    }
}

/// `b` as `{:02x}` (or `{:02X}`) writes it.
pub open spec fn hex_pair(b: u8, upper: bool) -> Seq<char> {
    seq![hex_char(b / 16, upper), hex_char(b % 16, upper)]
}

proof fn lemma_hex_pair(b: u8, upper: bool)
    ensures
        hex_byte(hex_pair(b, upper)[0], hex_pair(b, upper)[1]) == Some(b),
{
    let hi = b / 16;
    let lo = b % 16;
    assert(hex_digit(hex_char(hi, upper)) == Some(hi));
    assert(hex_digit(hex_char(lo, upper)) == Some(lo));
    assert(hi * 16 + lo == b);
}

/// A colour written out as `#rrggbbaa` (or `#rrggbb`, alpha left opaque)
/// in lower- or upper-case hex digits parses back to itself.
pub proof fn lemma_colour_round_trip(c: Rgba, upper: bool)
    ensures
        parse_color(seq!['#'] + hex_pair(c.0, upper) + hex_pair(c.1, upper) + hex_pair(c.2, upper)
            + hex_pair(c.3, upper)) == Some(c),
        parse_color(seq!['#'] + hex_pair(c.0, upper) + hex_pair(c.1, upper) + hex_pair(c.2, upper))
            == Some(Rgba(c.0, c.1, c.2, 255)),
{
    lemma_hex_pair(c.0, upper);
    lemma_hex_pair(c.1, upper);
    lemma_hex_pair(c.2, upper);
    lemma_hex_pair(c.3, upper);
    let s8 = seq!['#'] + hex_pair(c.0, upper) + hex_pair(c.1, upper) + hex_pair(c.2, upper)
        + hex_pair(c.3, upper);
    let s6 = seq!['#'] + hex_pair(c.0, upper) + hex_pair(c.1, upper) + hex_pair(c.2, upper);
    assert(s8.drop_first() =~= hex_pair(c.0, upper) + hex_pair(c.1, upper) + hex_pair(c.2, upper)
        + hex_pair(c.3, upper));
    assert(s6.drop_first() =~= hex_pair(c.0, upper) + hex_pair(c.1, upper) + hex_pair(c.2, upper));
}

/// The short form `#xyz` names the same colour as `#xxyyzz`, and either
/// parses exactly when the other does.
pub proof fn lemma_short_form(x: char, y: char, z: char)
    ensures
        parse_color(seq!['#', x, y, z]) == parse_color(seq!['#', x, x, y, y, z, z]),
{
    let s3 = seq!['#', x, y, z];
    let s6 = seq!['#', x, x, y, y, z, z];
    assert(s3.drop_first() =~= seq![x, y, z]);
    assert(s6.drop_first() =~= seq![x, x, y, y, z, z]);
}

/// A colour reference on a layer: `"#rrggbb[aa]"` or `"gradient:<name>"`.
#[derive(Debug, Clone, PartialEq)]
pub enum PaintSpec {
    Flat(Rgba),
    Grad(String),
}

/// The marker that introduces a named gradient.
pub open spec fn gradient_marker() -> Seq<char> {
    seq!['g', 'r', 'a', 'd', 'i', 'e', 'n', 't', ':']
}

impl PaintSpec {
    pub fn parse(s: &str) -> (r: Option<PaintSpec>)
        ensures
            s@.len() >= 9 && s@.subrange(0, 9) == gradient_marker() ==> (r matches Some(
                PaintSpec::Grad(name),
            ) && name@ == trim(s@.subrange(9, s@.len() as int))),
            !(s@.len() >= 9 && s@.subrange(0, 9) == gradient_marker()) ==> r == match parse_color(
                s@,
            ) {
                Some(c) => Some(PaintSpec::Flat(c)),
                None => None::<PaintSpec>,
            },
    {
        let v = chars_of(s);
        let marker = chars_of("gradient:");
        proof {
            reveal_strlit("gradient:");
            assert(marker@ == gradient_marker());
        }
        let mut is_grad = v.len() >= 9;
        let mut i: usize = 0;
        while i < 9 && is_grad
            invariant
                v@ == s@,
                marker@ == gradient_marker(),
                i <= 9,
                is_grad ==> v@.len() >= 9 && forall|j: int| 0 <= j < i ==> v@[j] == marker@[j],
                !is_grad ==> !(v@.len() >= 9 && v@.subrange(0, 9) == gradient_marker()),
            decreases 9 - i,
        {
            if v[i] != marker[i] {
                is_grad = false;
                proof {
                    if v@.len() >= 9 {
                        assert(v@.subrange(0, 9)[i as int] == v@[i as int]);
                    }
                }
            }
            i += 1;
        }
        if is_grad {
            assert(v@.subrange(0, 9) =~= gradient_marker());
            let (a, b) = trim_bounds(&v, 9, v.len());
            Some(PaintSpec::Grad(string_of(&v, a, b)))
        } else {
            match Rgba::parse(s) {
                Some(c) => Some(PaintSpec::Flat(c)),
                None => None,
            }
        }
    }
}

/// The flat colour of a paint; a gradient reads as white.
pub fn flat_of(spec: &PaintSpec) -> (c: Rgba)
    ensures
        c == match spec {
            PaintSpec::Flat(c) => *c,
            PaintSpec::Grad(_) => white(),
        },
{
    match spec {
        PaintSpec::Flat(c) => *c,
        PaintSpec::Grad(_) => Rgba::white(),
    }
}

} // verus!
