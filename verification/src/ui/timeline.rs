//! Timeline support: the color of a marker, read from its `#RRGGBB` text.

use vstd::prelude::*;

use crate::text::{chars_of, trim, trim_chars};

verus! {

/// `s` without its leading `#` characters.
pub open spec fn strip_hashes(s: Seq<char>) -> Seq<char>
    decreases s.len(),
{
    if s.len() > 0 && s[0] == '#' {
        strip_hashes(s.drop_first())
    } else {
        s
    }
}

/// The part of a color text that holds the digits: trimmed, then without
/// its leading `#` characters.
pub open spec fn color_digits(s: Seq<char>) -> Seq<char> {
    strip_hashes(trim(s))
}

/// Value of a hexadecimal digit.
pub open spec fn hex_digit_value(c: char) -> Option<nat> {
    if '0' <= c <= '9' {
        Some((c as u32 - '0' as u32) as nat)
    } else if 'a' <= c <= 'f' {
        Some((c as u32 - 'a' as u32 + 10) as nat)
    } else if 'A' <= c <= 'F' {
        Some((c as u32 - 'A' as u32 + 10) as nat)
    } else {
        None
    }
}

/// Value of a two-digit hexadecimal component.
pub open spec fn component_value(a: char, b: char) -> Option<u8> {
    match (hex_digit_value(a), hex_digit_value(b)) {
        (Some(x), Some(y)) => Some((16 * x + y) as u8),
        _ => None,
    }
}

/// The RGB components of a `#RRGGBB` text, `None` when it is not one.
pub open spec fn hex_color(s: Seq<char>) -> Option<(u8, u8, u8)> {
    let t = color_digits(s);
    if t.len() != 6 {
        None
    } else {
        match (
            component_value(t[0], t[1]),
            component_value(t[2], t[3]),
            component_value(t[4], t[5]),
        ) {
            (Some(r), Some(g), Some(b)) => Some((r, g, b)),
            _ => None,
        }
    }
}

/// Law: a color text reads as a color exactly when its digits are six
/// hexadecimal digits, each pair giving one component.
pub proof fn law_hex_color_is_six_hex_digits(s: Seq<char>)
    ensures
        hex_color(s) is Some <==> (color_digits(s).len() == 6 && forall|k: int|
            0 <= k < 6 ==> #[trigger] hex_digit_value(color_digits(s)[k]) is Some),
        hex_color(s) matches Some(rgb) ==> {
            let d = color_digits(s);
            &&& rgb.0 == 16 * hex_digit_value(d[0])->Some_0 + hex_digit_value(d[1])->Some_0
            &&& rgb.1 == 16 * hex_digit_value(d[2])->Some_0 + hex_digit_value(d[3])->Some_0
            &&& rgb.2 == 16 * hex_digit_value(d[4])->Some_0 + hex_digit_value(d[5])->Some_0
        },
{
    let d = color_digits(s);
    if d.len() == 6 && (forall|k: int| 0 <= k < 6 ==> #[trigger] hex_digit_value(d[k]) is Some) {
        assert(hex_digit_value(d[0]) is Some);
        assert(hex_digit_value(d[1]) is Some);
        assert(hex_digit_value(d[2]) is Some);
        assert(hex_digit_value(d[3]) is Some);
        assert(hex_digit_value(d[4]) is Some);
        assert(hex_digit_value(d[5]) is Some);
    }
    if hex_color(s) is Some {
        assert forall|k: int| 0 <= k < 6 implies #[trigger] hex_digit_value(d[k]) is Some by {
            if k == 0 || k == 1 {
                assert(component_value(d[0], d[1]) is Some);
            } else if k == 2 || k == 3 {
                assert(component_value(d[2], d[3]) is Some);
            } else {
                assert(component_value(d[4], d[5]) is Some);
            }
        }
    }
}

fn hex_digit(c: char) -> (r: Option<u8>)
    ensures
        match hex_digit_value(c) {
            Some(v) => r == Some(v as u8),
            None => r is None,
        },
{
    if '0' <= c && c <= '9' {
        Some((c as u32 - '0' as u32) as u8)
    } else if 'a' <= c && c <= 'f' {
        Some((c as u32 - 'a' as u32 + 10) as u8)
    } else if 'A' <= c && c <= 'F' {
        Some((c as u32 - 'A' as u32 + 10) as u8)
    } else {
        None
    }
}

fn component(a: char, b: char) -> (r: Option<u8>)
    ensures
        r == component_value(a, b),
{
    match (hex_digit(a), hex_digit(b)) {
        (Some(x), Some(y)) => Some(16 * x + y),
        _ => None,
    }
}

proof fn lemma_strip_hashes_skip(s: Seq<char>, i: int)
    requires
        0 <= i <= s.len(),
        forall|k: int| 0 <= k < i ==> s[k] == '#',
    ensures
        strip_hashes(s) == strip_hashes(s.skip(i)),
    decreases i,
{
    if i > 0 {
        assert(s.drop_first().skip(i - 1) =~= s.skip(i));
        lemma_strip_hashes_skip(s.drop_first(), i - 1);
    } else {
        assert(s.skip(0) =~= s);
    }
}

/// Converts a `#RRGGBB` color into its RGB components: after trimming and
/// removing the leading `#` characters, exactly six ASCII hexadecimal digits
/// give `Some((r, g, b))`; anything else gives `None`.
pub fn parse_hex_color(s: &str) -> (r: Option<(u8, u8, u8)>)
    ensures
        r == hex_color(s@),
{
    let v = chars_of(s);
    let t = trim_chars(&v);
    let mut i: usize = 0;
    while i < t.len() && t[i] == '#'
        invariant
            i <= t@.len(),
            forall|k: int| 0 <= k < i ==> t@[k] == '#',
        decreases t@.len() - i,
    {
        i += 1;
    }
    proof {
        lemma_strip_hashes_skip(t@, i as int);
        let u = t@.skip(i as int);
        if u.len() > 0 {
            assert(u[0] == t@[i as int]);
        }
        assert(strip_hashes(u) == u);
    }
    if t.len() - i != 6 {
        return None;
    }
    let red = component(t[i], t[i + 1]);
    let green = component(t[i + 2], t[i + 3]);
    let blue = component(t[i + 4], t[i + 5]);
    match (red, green, blue) {
        (Some(r), Some(g), Some(b)) => Some((r, g, b)),
        _ => None,
    }
}

} // verus!
