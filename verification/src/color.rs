//! Colors as plain red/green/blue triples, with the `#RRGGBB` text form
//! used by the configuration file.

use vstd::prelude::*;

verus! {

/// One color channel per field, each naturally within 0..=255.
#[derive(Clone, Copy, Debug, PartialEq, Eq, Structural)]
pub struct Rgb {
    pub r: u8,
    pub g: u8,
    pub b: u8,
}

pub open spec fn is_hex_digit(c: char) -> bool {
    48 <= (c as u32) <= 57 || 65 <= (c as u32) <= 70 || 97 <= (c as u32) <= 102
}

pub open spec fn hex_digit_val(c: char) -> int {
    if 48 <= (c as u32) <= 57 {
        (c as u32) - 48
    } else if 65 <= (c as u32) <= 70 {
        (c as u32) - 55
    } else {
        (c as u32) - 87
    }
}

/// The text with its leading number signs removed.
pub open spec fn strip_hashes(s: Seq<char>) -> Seq<char>
    decreases s.len(),
{
    if s.len() > 0 && s[0] == '#' {
        strip_hashes(s.drop_first())
    } else {
        s
    }
}

pub open spec fn hex_pair_val(a: char, b: char) -> int {
    16 * hex_digit_val(a) + hex_digit_val(b)
}

/// The color denoted by `s`: exactly six hexadecimal digits after the
/// leading number signs, two per channel; `None` on any other text.
pub open spec fn spec_parse_color(s: Seq<char>) -> Option<Rgb> {
    let t = strip_hashes(s);
    if t.len() == 6 && (forall|j: int| 0 <= j < 6 ==> is_hex_digit(#[trigger] t[j])) {
        Some(
            Rgb {
                r: hex_pair_val(t[0], t[1]) as u8,
                g: hex_pair_val(t[2], t[3]) as u8,
                b: hex_pair_val(t[4], t[5]) as u8,
            },
        )
    } else {
        None
    }
}

fn hex_digit_of(c: char) -> (r: Option<u8>)
    ensures
        match r {
            Some(d) => is_hex_digit(c) && d as int == hex_digit_val(c) && d < 16,
            None => !is_hex_digit(c),
        },
{
    let cu = c as u32;
    if 48 <= cu && cu <= 57 {
        Some((cu - 48) as u8)
    } else if 65 <= cu && cu <= 70 {
        Some((cu - 55) as u8)
    } else if 97 <= cu && cu <= 102 {
        Some((cu - 87) as u8)
    } else {
        None
    }
}

/// Parses a `#RRGGBB` color value.
#[verifier::loop_isolation(false)]
pub fn parse_color_hex(v: &Vec<char>) -> (r: Option<Rgb>)
    ensures
        r == spec_parse_color(v@),
{
    let mut lo: usize = 0;
    proof {
        assert(v@.subrange(0, v@.len() as int) =~= v@);
    }
    while lo < v.len() && v[lo] == '#'
        invariant
            lo <= v@.len(),
            strip_hashes(v@.subrange(lo as int, v@.len() as int)) == strip_hashes(v@),
        decreases v@.len() - lo,
    {
        proof {
            let cur = v@.subrange(lo as int, v@.len() as int);
            assert(cur.drop_first() =~= v@.subrange(lo + 1, v@.len() as int));
        }
        lo += 1;
    }
    proof {
        let t = v@.subrange(lo as int, v@.len() as int);
        assert(strip_hashes(t) == t);
    }
    if v.len() - lo != 6 {
        return None;
    }
    let d0 = hex_digit_of(v[lo]);
    let d1 = hex_digit_of(v[lo + 1]);
    let d2 = hex_digit_of(v[lo + 2]);
    let d3 = hex_digit_of(v[lo + 3]);
    let d4 = hex_digit_of(v[lo + 4]);
    let d5 = hex_digit_of(v[lo + 5]);
    proof {
        let t = v@.subrange(lo as int, v@.len() as int);
        assert(t.len() == 6);
        assert(t[0] == v@[lo as int]);
        assert(t[1] == v@[lo + 1]);
        assert(t[2] == v@[lo + 2]);
        assert(t[3] == v@[lo + 3]);
        assert(t[4] == v@[lo + 4]);
        assert(t[5] == v@[lo + 5]);
    }
    match (d0, d1, d2, d3, d4, d5) {
        (Some(a), Some(b), Some(c), Some(d), Some(e), Some(f)) => Some(
            Rgb { r: 16 * a + b, g: 16 * c + d, b: 16 * e + f },
        ),
        _ => {
            proof {
                let t = v@.subrange(lo as int, v@.len() as int);
                assert(exists|j: int| 0 <= j < 6 && !is_hex_digit(#[trigger] t[j]));
            }
            None
        },
    }
}

/// Appends the `#RRGGBB` text of a color, upper case.
pub open spec fn spec_color_text(c: Rgb) -> Seq<char> {
    seq!['#'] + crate::numbers::hex_byte(c.r as int) + crate::numbers::hex_byte(c.g as int)
        + crate::numbers::hex_byte(c.b as int)
}

pub fn push_color(s: &mut String, c: &Rgb)
    ensures
        final(s)@ == old(s)@ + spec_color_text(*c),
{
    crate::text::push_char(s, '#');
    crate::numbers::push_hex_byte(s, c.r);
    crate::numbers::push_hex_byte(s, c.g);
    crate::numbers::push_hex_byte(s, c.b);
    proof {
        assert(final(s)@ =~= old(s)@ + spec_color_text(*c));
    }
}

/// Rendering a color and parsing it back returns the same color: the text
/// form is the exact inverse of parsing for every color value.
pub proof fn lemma_color_round_trip(c: Rgb)
    ensures
        spec_parse_color(spec_color_text(c)) == Some(c),
{
    let t = spec_color_text(c);
    assert(t[0] == '#');
    let u = t.drop_first();
    assert(u =~= crate::numbers::hex_byte(c.r as int) + crate::numbers::hex_byte(c.g as int)
        + crate::numbers::hex_byte(c.b as int));
    assert(strip_hashes(t) == strip_hashes(u));
    lemma_hex_char_val(c.r as int / 16);
    lemma_hex_char_val(c.r as int % 16);
    lemma_hex_char_val(c.g as int / 16);
    lemma_hex_char_val(c.g as int % 16);
    lemma_hex_char_val(c.b as int / 16);
    lemma_hex_char_val(c.b as int % 16);
    assert(u[0] == crate::numbers::hex_char(c.r as int / 16));
    assert(u[1] == crate::numbers::hex_char(c.r as int % 16));
    assert(u[2] == crate::numbers::hex_char(c.g as int / 16));
    assert(u[3] == crate::numbers::hex_char(c.g as int % 16));
    assert(u[4] == crate::numbers::hex_char(c.b as int / 16));
    assert(u[5] == crate::numbers::hex_char(c.b as int % 16));
    assert(u.len() == 6);
    assert(!(u[0] == '#'));
    assert(strip_hashes(u) == u);
    assert(hex_pair_val(u[0], u[1]) == c.r as int);
    assert(hex_pair_val(u[2], u[3]) == c.g as int);
    assert(hex_pair_val(u[4], u[5]) == c.b as int);
}

/// The upper-case digit characters carry their own value back.
proof fn lemma_hex_char_val(d: int)
    requires
        0 <= d < 16,
    ensures
        is_hex_digit(crate::numbers::hex_char(d)),
        hex_digit_val(crate::numbers::hex_char(d)) == d,
{
}

} // verus!
