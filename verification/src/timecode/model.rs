//! The [`Timecode`] value in the HH:MM:SS:FF format.

use vstd::prelude::*;

use crate::text::{
    chars_of, decimal_pad2, is_ascii_digit, lemma_decimal_pad2_digits, lemma_parse_digits,
    lemma_split_append, lemma_split_none, lemma_trim_digits, parse_u32, parse_u32_chars, push_char,
    push_decimal_pad2, split_at_char, split_chars, trim, trim_chars, trim_end, trim_start,
};

verus! {

/// SMPTE timecode: hours, minutes, seconds and frames.
///
/// `frames` lies in `0..frames_per_second` of the frame rate in use; range
/// validation belongs to the conversions, not to this struct.
#[derive(Debug, Clone, Copy, PartialEq, Eq, Structural)]
pub struct Timecode {
    pub hours: u32,
    pub minutes: u32,
    pub seconds: u32,
    pub frames: u32,
}

/// `HH:MM:SS:FF`, every field zero-padded to at least two digits.
pub open spec fn timecode_text(tc: Timecode) -> Seq<char> {
    decimal_pad2(tc.hours as nat) + seq![':'] + decimal_pad2(tc.minutes as nat) + seq![':']
        + decimal_pad2(tc.seconds as nat) + seq![':'] + decimal_pad2(tc.frames as nat)
}

/// The timecode that `Timecode::from_str` reads from `s`: the trimmed text
/// split at `:` into exactly four fields, each trimmed and read as `u32`.
pub open spec fn parsed_timecode(s: Seq<char>) -> Option<Timecode> {
    let parts = split_at_char(trim(s), ':');
    if parts.len() != 4 {
        None
    } else {
        match (
            parse_u32(trim(parts[0])),
            parse_u32(trim(parts[1])),
            parse_u32(trim(parts[2])),
            parse_u32(trim(parts[3])),
        ) {
            (Some(h), Some(m), Some(sec), Some(f)) => Some(
                Timecode { hours: h, minutes: m, seconds: sec, frames: f },
            ),
            _ => None,
        }
    }
}

impl Timecode {
    /// Timecode zero (00:00:00:00).
    pub fn zero() -> (r: Timecode)
        ensures
            r == (Timecode { hours: 0, minutes: 0, seconds: 0, frames: 0 }),
    {
        Timecode { hours: 0, minutes: 0, seconds: 0, frames: 0 }
    }

    /// Appends the `HH:MM:SS:FF` text of this timecode.
    pub fn push_text(&self, s: &mut String)
        ensures
            final(s)@ == old(s)@ + timecode_text(*self),
    {
        push_decimal_pad2(s, self.hours as u64);
        push_char(s, ':');
        push_decimal_pad2(s, self.minutes as u64);
        push_char(s, ':');
        push_decimal_pad2(s, self.seconds as u64);
        push_char(s, ':');
        push_decimal_pad2(s, self.frames as u64);
        proof {
            assert(final(s)@ =~= old(s)@ + timecode_text(*self));
        }
    }

    /// The `HH:MM:SS:FF` text (zero-padded, e.g. `01:00:12:16`).
    pub fn to_string(&self) -> (r: String)
        ensures
            r@ == timecode_text(*self),
    {
        let mut s = String::new();
        self.push_text(&mut s);
        proof {
            assert(s@ =~= timecode_text(*self));
        }
        s
    }

    /// Parses `HH:MM:SS:FF` (e.g. `01:00:12:16`), with one or more digits per
    /// field. Rejects text without exactly four fields, non-numeric fields
    /// and values that do not fit in `u32`; the error carries the input.
    pub fn parse(s: &str) -> (r: Result<Timecode, ParseTimecodeError>)
        ensures
            r matches Ok(tc) ==> parsed_timecode(s@) == Some(tc),
            r matches Err(e) ==> parsed_timecode(s@) is None && e.0@ == s@,
    {
        let chars = chars_of(s);
        let trimmed = trim_chars(&chars);
        let parts = split_chars(&trimmed, ':');
        if parts.len() != 4 {
            return Err(ParseTimecodeError(String::from_str(s)));
        }
        let h = parse_u32_chars(&trim_chars(&parts[0]));
        let m = parse_u32_chars(&trim_chars(&parts[1]));
        let sec = parse_u32_chars(&trim_chars(&parts[2]));
        let f = parse_u32_chars(&trim_chars(&parts[3]));
        match (h, m, sec, f) {
            (Some(h), Some(m), Some(sec), Some(f)) => Ok(
                Timecode { hours: h, minutes: m, seconds: sec, frames: f },
            ),
            _ => Err(ParseTimecodeError(String::from_str(s))),
        }
    }
}

/// Law: the text of a timecode parses back to the same timecode.
pub proof fn law_text_round_trip(tc: Timecode)
    ensures
        parsed_timecode(timecode_text(tc)) == Some(tc),
{
    let h = decimal_pad2(tc.hours as nat);
    let m = decimal_pad2(tc.minutes as nat);
    let s = decimal_pad2(tc.seconds as nat);
    let f = decimal_pad2(tc.frames as nat);
    lemma_decimal_pad2_digits(tc.hours as nat);
    lemma_decimal_pad2_digits(tc.minutes as nat);
    lemma_decimal_pad2_digits(tc.seconds as nat);
    lemma_decimal_pad2_digits(tc.frames as nat);
    let text = timecode_text(tc);
    assert(text =~= h + seq![':'] + m + seq![':'] + s + seq![':'] + f);
    assert(text[0] == h[0]);
    assert(is_ascii_digit(text[0]));
    assert(trim_start(text) == text);
    assert(text[text.len() - 1] == f[f.len() - 1]);
    assert(is_ascii_digit(text.last()));
    assert(trim_end(text) == text);
    assert(trim(text) == text);
    assert forall|k: int| 0 <= k < h.len() implies h[k] != ':' by {
        assert(is_ascii_digit(h[k]));
    }
    assert forall|k: int| 0 <= k < m.len() implies m[k] != ':' by {
        assert(is_ascii_digit(m[k]));
    }
    assert forall|k: int| 0 <= k < s.len() implies s[k] != ':' by {
        assert(is_ascii_digit(s[k]));
    }
    assert forall|k: int| 0 <= k < f.len() implies f[k] != ':' by {
        assert(is_ascii_digit(f[k]));
    }
    lemma_split_none(h, ':');
    lemma_split_append(h, ':', m);
    lemma_split_append(h + seq![':'] + m, ':', s);
    lemma_split_append(h + seq![':'] + m + seq![':'] + s, ':', f);
    let parts = split_at_char(trim(text), ':');
    assert(parts =~= seq![h, m, s, f]);
    lemma_trim_digits(h);
    lemma_trim_digits(m);
    lemma_trim_digits(s);
    lemma_trim_digits(f);
    lemma_parse_digits(h);
    lemma_parse_digits(m);
    lemma_parse_digits(s);
    lemma_parse_digits(f);
}

impl std::str::FromStr for Timecode {
    type Err = ParseTimecodeError;

    fn from_str(s: &str) -> (r: Result<Self, Self::Err>)
        ensures
            r matches Ok(tc) ==> parsed_timecode(s@) == Some(tc),
            r matches Err(e) ==> parsed_timecode(s@) is None && e.0@ == s@,
    {
        Timecode::parse(s)
    }
}

/// Error when text cannot be parsed as a [`Timecode`]; holds the text.
#[derive(Debug, Clone, PartialEq, Eq)]
pub struct ParseTimecodeError(pub String);

impl ParseTimecodeError {
    /// The user-facing message: `timecode inválido '<text>' (esperado HH:MM:SS:FF)`.
    pub fn to_string(&self) -> (r: String)
        ensures
            r@ == "timecode inválido '"@ + self.0@ + "' (esperado HH:MM:SS:FF)"@,
    {
        let mut out = String::from_str("timecode inválido '");
        out.append(self.0.as_str());
        out.append("' (esperado HH:MM:SS:FF)");
        out
    }
}

} // verus!
