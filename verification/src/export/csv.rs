//! CSV export: `timecode,cue_number,executor,tipo,nome,comentario`.
//!
//! Fields holding a comma, a quote or a line break are quoted as RFC 4180
//! prescribes.

use vstd::prelude::*;

use crate::export::xml::comment_text;
use crate::markers::model::{marker_type_name, Marker};
use crate::text::{chars_of, decimal, push_char, push_decimal};
use crate::timecode::model::timecode_text;

verus! {

/// A character that forces a CSV field to be quoted.
pub open spec fn is_csv_special(c: char) -> bool {
    c == ',' || c == '"' || c == '\n' || c == '\r'
}

/// Whether a field must be written between quotes.
pub open spec fn needs_quoting(s: Seq<char>) -> bool {
    exists|i: int| 0 <= i < s.len() && is_csv_special(#[trigger] s[i])
}

/// `s` with every `"` written twice.
pub open spec fn quotes_doubled(s: Seq<char>) -> Seq<char>
    decreases s.len(),
{
    if s.len() == 0 {
        Seq::empty()
    } else {
        quotes_doubled(s.drop_last()) + (if s.last() == '"' {
            seq!['"', '"']
        } else {
            seq![s.last()]
        })
    }
}

/// Reads a quoted field's inner text back: every `""` becomes `"`.
pub open spec fn quotes_undoubled(t: Seq<char>) -> Seq<char>
    decreases t.len(),
{
    if t.len() >= 2 && t.last() == '"' && t[t.len() - 2] == '"' {
        quotes_undoubled(t.take(t.len() - 2)).push('"')
    } else if t.len() >= 1 {
        quotes_undoubled(t.drop_last()).push(t.last())
    } else {
        Seq::empty()
    }
}

proof fn lemma_undouble(s: Seq<char>)
    ensures
        quotes_undoubled(quotes_doubled(s)) == s,
    decreases s.len(),
{
    if s.len() > 0 {
        lemma_undouble(s.drop_last());
        let p = quotes_doubled(s.drop_last());
        if s.last() == '"' {
            let t = p + seq!['"', '"'];
            assert(t.take(t.len() - 2) =~= p);
        } else {
            let t = p + seq![s.last()];
            assert(t.drop_last() =~= p);
            assert(t.last() == s.last());
        }
        assert(s.drop_last().push(s.last()) =~= s);
    }
}

/// Law: a CSV field reads back as the text it was written from. A field
/// with a comma, a quote or a line break is written between quotes, and
/// undoubling the quotes inside gives the text back; any other field is
/// written as it is.
pub proof fn law_csv_field_reads_back(s: Seq<char>)
    ensures
        needs_quoting(s) ==> ({
            let t = csv_field_text(s);
            &&& t.len() >= 2
            &&& t[0] == '"'
            &&& t.last() == '"'
            &&& quotes_undoubled(t.subrange(1, t.len() - 1)) == s
        }),
        !needs_quoting(s) ==> csv_field_text(s) == s && forall|i: int|
            0 <= i < s.len() ==> !is_csv_special(#[trigger] s[i]),
{
    if needs_quoting(s) {
        let t = csv_field_text(s);
        lemma_undouble(s);
        assert(t.subrange(1, t.len() - 1) =~= quotes_doubled(s));
    }
}

/// The text of one CSV field: quoted (with inner quotes doubled) when it
/// holds a comma, a quote or a line break, verbatim otherwise.
pub open spec fn csv_field_text(s: Seq<char>) -> Seq<char> {
    if needs_quoting(s) {
        seq!['"'] + quotes_doubled(s) + seq!['"']
    } else {
        s
    }
}

/// The CSV line of one marker, line break included.
pub open spec fn csv_line(m: Marker) -> Seq<char> {
    timecode_text(m.timecode) + ","@ + decimal(m.cue_number as nat) + ","@ + decimal(
        m.executor as nat,
    ) + ","@ + marker_type_name(m.marker_type) + ","@ + csv_field_text(m.name@) + ","@
        + csv_field_text(comment_text(m)) + "\n"@
}

/// The CSV lines of all markers, in order.
pub open spec fn csv_lines(s: Seq<Marker>) -> Seq<char>
    decreases s.len(),
{
    if s.len() == 0 {
        Seq::empty()
    } else {
        csv_lines(s.drop_last()) + csv_line(s.last())
    }
}

/// The header line of the CSV export.
pub open spec fn csv_header() -> Seq<char> {
    "timecode,cue_number,executor,tipo,nome,comentario\n"@
}

/// The whole CSV document: header followed by one line per marker.
pub open spec fn csv_document(s: Seq<Marker>) -> Seq<char> {
    csv_header() + csv_lines(s)
}

/// Law: the CSV lines of two lists of markers, one after the other, are the
/// lines of the first list followed by those of the second, and a single
/// marker gives exactly its own line; so the document is the header followed
/// by one line per marker, in the markers' order, none left out or repeated.
pub proof fn law_csv_one_line_per_marker(a: Seq<Marker>, b: Seq<Marker>, x: Marker)
    ensures
        csv_lines(a + b) == csv_lines(a) + csv_lines(b),
        csv_lines(seq![x]) == csv_line(x),
    decreases b.len(),
{
    assert(seq![x].drop_last() =~= Seq::<Marker>::empty());
    assert(seq![x].last() == x);
    assert(csv_lines(Seq::<Marker>::empty()) == Seq::<char>::empty());
    assert(Seq::<char>::empty() + csv_line(x) =~= csv_line(x));
    if b.len() == 0 {
        assert(a + b =~= a);
        assert(csv_lines(a) + Seq::<char>::empty() =~= csv_lines(a));
    } else {
        law_csv_one_line_per_marker(a, b.drop_last(), x);
        assert((a + b).drop_last() =~= a + b.drop_last());
        assert((a + b).last() == b.last());
        assert(csv_lines(a) + csv_lines(b.drop_last()) + csv_line(b.last()) =~= csv_lines(a) + (csv_lines(
            b.drop_last(),
        ) + csv_line(b.last())));
    }
}


/// Whether some character of `v` forces quoting.
fn has_csv_special(v: &Vec<char>) -> (r: bool)
    ensures
        r == needs_quoting(v@),
{
    let mut i: usize = 0;
    while i < v.len()
        invariant
            i <= v@.len(),
            forall|j: int| 0 <= j < i ==> !is_csv_special(#[trigger] v@[j]),
        decreases v@.len() - i,
    {
        let c = v[i];
        if c == ',' || c == '"' || c == '\n' || c == '\r' {
            assert(is_csv_special(v@[i as int]));
            return true;
        }
        i += 1;
    }
    false
}

/// Appends `text` as one CSV field.
fn push_csv_field(out: &mut String, text: &str)
    ensures
        final(out)@ == old(out)@ + csv_field_text(text@),
{
    let v = chars_of(text);
    if !has_csv_special(&v) {
        out.append(text);
        return;
    }
    push_char(out, '"');
    let ghost start = out@;
    let mut i: usize = 0;
    while i < v.len()
        invariant
            i <= v@.len(),
            v@ == text@,
            out@ == start + quotes_doubled(v@.take(i as int)),
        decreases v@.len() - i,
    {
        let c = v[i];
        if c == '"' {
            push_char(out, '"');
            push_char(out, '"');
        } else {
            push_char(out, c);
        }
        proof {
            assert(v@.take(i + 1).drop_last() =~= v@.take(i as int));
            assert(v@.take(i + 1).last() == c);
            assert(out@ =~= start + quotes_doubled(v@.take(i + 1)));
        }
        i += 1;
    }
    push_char(out, '"');
    proof {
        assert(v@.take(v@.len() as int) =~= v@);
        assert(out@ =~= old(out)@ + csv_field_text(text@));
    }
}

/// Formats a CSV field: between quotes when it holds a comma, a quote or a
/// line break (inner quotes are doubled, as RFC 4180 prescribes).
fn csv_field(s: &str) -> (r: String)
    ensures
        r@ == csv_field_text(s@),
{
    let mut out = String::new();
    push_csv_field(&mut out, s);
    proof {
        assert(out@ =~= csv_field_text(s@));
    }
    out
}

/// Appends the CSV line of one marker.
#[verifier::rlimit(50)]
fn push_csv_line(out: &mut String, m: &Marker)
    ensures
        final(out)@ == old(out)@ + csv_line(*m),
{
    m.timecode.push_text(out);
    out.append(",");
    push_decimal(out, m.cue_number as u64);
    out.append(",");
    push_decimal(out, m.executor as u64);
    out.append(",");
    out.append(m.marker_type.as_str());
    out.append(",");
    let name = csv_field(m.name.as_str());
    out.append(name.as_str());
    out.append(",");
    match &m.comment {
        Some(c) => push_csv_field(out, c.as_str()),
        None => {
            assert(csv_field_text(Seq::<char>::empty()) =~= Seq::<char>::empty());
        },
    }
    out.append("\n");
    proof {
        assert(final(out)@ =~= old(out)@ + csv_line(*m));
    }
}

/// Generates the complete CSV (header plus one line per marker).
pub fn to_csv(markers: &[Marker]) -> (r: String)
    ensures
        r@ == csv_document(markers@),
{
    let mut out = String::from_str("timecode,cue_number,executor,tipo,nome,comentario\n");
    let mut i: usize = 0;
    while i < markers.len()
        invariant
            i <= markers@.len(),
            out@ == csv_header() + csv_lines(markers@.take(i as int)),
        decreases markers@.len() - i,
    {
        push_csv_line(&mut out, &markers[i]);
        proof {
            assert(markers@.take(i + 1).drop_last() =~= markers@.take(i as int));
            assert(markers@.take(i + 1).last() == markers@[i as int]);
            assert(out@ =~= csv_header() + csv_lines(markers@.take(i + 1)));
        }
        i += 1;
    }
    proof {
        assert(markers@.take(markers@.len() as int) =~= markers@);
    }
    out
}

} // verus!
