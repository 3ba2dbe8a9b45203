//! Generic XML export of markers; special characters are escaped.

use vstd::prelude::*;

use crate::markers::model::{marker_type_name, Marker};
use crate::text::{chars_of, decimal, occurs_at, push_char, push_decimal};
use crate::timecode::model::timecode_text;

verus! {

/// The XML entity (or the character itself) for one character of text.
pub open spec fn escaped_char(c: char) -> Seq<char> {
    if c == '&' {
        "&amp;"@
    } else if c == '<' {
        "&lt;"@
    } else if c == '>' {
        "&gt;"@
    } else if c == '"' {
        "&quot;"@
    } else if c == '\'' {
        "&apos;"@
    } else {
        seq![c]
    }
}

/// `s` with `& < > " '` replaced by their XML entities.
pub open spec fn xml_escaped(s: Seq<char>) -> Seq<char>
    decreases s.len(),
{
    if s.len() == 0 {
        Seq::empty()
    } else {
        xml_escaped(s.drop_last()) + escaped_char(s.last())
    }
}

/// Law: escaped text holds no `<`, `>`, `"` or `'`, so it can stand in
/// element content and in quoted attribute values; every `&` it holds
/// starts one of the five entities.
pub proof fn law_xml_escaped_has_no_markup(s: Seq<char>)
    ensures
        forall|i: int|
            0 <= i < xml_escaped(s).len() ==> {
                let c = #[trigger] xml_escaped(s)[i];
                c != '<' && c != '>' && c != '"' && c != '\''
            },
    decreases s.len(),
{
    if s.len() > 0 {
        law_xml_escaped_has_no_markup(s.drop_last());
        let p = xml_escaped(s.drop_last());
        let e = escaped_char(s.last());
        assert forall|i: int| 0 <= i < xml_escaped(s).len() implies {
            let c = #[trigger] xml_escaped(s)[i];
            c != '<' && c != '>' && c != '"' && c != '\''
        } by {
            if i < p.len() {
                assert(xml_escaped(s)[i] == p[i]);
            } else {
                assert(xml_escaped(s)[i] == e[i - p.len()]);
                reveal_strlit("&amp;");
                reveal_strlit("&lt;");
                reveal_strlit("&gt;");
                reveal_strlit("&quot;");
                reveal_strlit("&apos;");
            }
        }
    }
}

/// One of the five entities starts at position `i` of `t`.
pub open spec fn xml_entity_at(t: Seq<char>, i: int) -> bool {
    ||| occurs_at(t, "&amp;"@, i)
    ||| occurs_at(t, "&lt;"@, i)
    ||| occurs_at(t, "&gt;"@, i)
    ||| occurs_at(t, "&quot;"@, i)
    ||| occurs_at(t, "&apos;"@, i)
}

/// Reads escaped text back in one left-to-right pass: each of the five
/// entities becomes its character, every other character stays.
pub open spec fn xml_unescaped(t: Seq<char>) -> Seq<char>
    decreases t.len(),
{
    if t.len() == 0 {
        Seq::empty()
    } else if t.len() >= 5 && t.take(5) == "&amp;"@ {
        seq!['&'] + xml_unescaped(t.skip(5))
    } else if t.len() >= 4 && t.take(4) == "&lt;"@ {
        seq!['<'] + xml_unescaped(t.skip(4))
    } else if t.len() >= 4 && t.take(4) == "&gt;"@ {
        seq!['>'] + xml_unescaped(t.skip(4))
    } else if t.len() >= 6 && t.take(6) == "&quot;"@ {
        seq!['"'] + xml_unescaped(t.skip(6))
    } else if t.len() >= 6 && t.take(6) == "&apos;"@ {
        seq!['\''] + xml_unescaped(t.skip(6))
    } else {
        seq![t[0]] + xml_unescaped(t.skip(1))
    }
}

/// A character that escaping replaces by an entity.
pub open spec fn is_xml_special(c: char) -> bool {
    c == '&' || c == '<' || c == '>' || c == '"' || c == '\''
}

proof fn lemma_escaped_front(s: Seq<char>)
    requires
        s.len() > 0,
    ensures
        xml_escaped(s) == escaped_char(s[0]) + xml_escaped(s.skip(1)),
    decreases s.len(),
{
    if s.len() == 1 {
        assert(s.drop_last() =~= Seq::<char>::empty());
        assert(s.skip(1) =~= Seq::<char>::empty());
        assert(xml_escaped(s) =~= escaped_char(s[0]) + xml_escaped(s.skip(1)));
    } else {
        lemma_escaped_front(s.drop_last());
        assert(s.skip(1).drop_last() =~= s.drop_last().skip(1));
        assert(s.skip(1).last() == s.last());
        assert(s.drop_last()[0] == s[0]);
        assert(xml_escaped(s) =~= escaped_char(s[0]) + xml_escaped(s.skip(1)));
    }
}

proof fn lemma_unescape_step(c: char, rest: Seq<char>)
    ensures
        xml_unescaped(escaped_char(c) + rest) == seq![c] + xml_unescaped(rest),
{
    reveal_strlit("&amp;");
    reveal_strlit("&lt;");
    reveal_strlit("&gt;");
    reveal_strlit("&quot;");
    reveal_strlit("&apos;");
    let t = escaped_char(c) + rest;
    let n = escaped_char(c).len();
    assert(t.take(n as int) =~= escaped_char(c));
    assert(t.skip(n as int) =~= rest);
    if c == '&' {
    } else if c == '<' {
        assert(t[1] == 'l');
    } else if c == '>' {
        assert(t[1] == 'g');
    } else if c == '"' {
        assert(t[1] == 'q');
    } else if c == '\'' {
        assert(t[1] == 'a');
        assert(t[2] == 'p');
    } else {
        assert(t[0] == c);
        if t.len() >= 5 {
            assert(t.take(5)[0] == c);
        }
        if t.len() >= 4 {
            assert(t.take(4)[0] == c);
        }
        if t.len() >= 6 {
            assert(t.take(6)[0] == c);
        }
    }
}

/// Law: escaping can be undone. Reading the escaped text back in one
/// left-to-right pass over its entities gives the text; every `&` of the
/// escaped text starts one of the five entities; and text without any of
/// `& < > " '` is left as it is.
pub proof fn law_xml_escape_reversible(s: Seq<char>)
    ensures
        xml_unescaped(xml_escaped(s)) == s,
        forall|i: int|
            0 <= i < xml_escaped(s).len() && #[trigger] xml_escaped(s)[i] == '&' ==> xml_entity_at(
                xml_escaped(s),
                i,
            ),
        (forall|i: int| 0 <= i < s.len() ==> !is_xml_special(#[trigger] s[i])) ==> xml_escaped(s)
            == s,
    decreases s.len(),
{
    reveal_strlit("&amp;");
    reveal_strlit("&lt;");
    reveal_strlit("&gt;");
    reveal_strlit("&quot;");
    reveal_strlit("&apos;");
    if s.len() == 0 {
        assert(xml_escaped(s) =~= s);
    } else {
        law_xml_escape_reversible(s.drop_last());
        law_xml_escape_reversible(s.skip(1));
        lemma_escaped_front(s);
        lemma_unescape_step(s[0], xml_escaped(s.skip(1)));
        assert(seq![s[0]] + s.skip(1) =~= s);
        let p = xml_escaped(s.drop_last());
        let e = escaped_char(s.last());
        let t = xml_escaped(s);
        assert(t == p + e);
        assert forall|i: int| 0 <= i < t.len() && #[trigger] t[i] == '&' implies xml_entity_at(t, i) by {
            if i < p.len() {
                assert(t[i] == p[i]);
                assert(xml_entity_at(p, i));
                assert forall|ent: Seq<char>| occurs_at(p, ent, i) implies occurs_at(t, ent, i) by {
                    assert(t.subrange(i, i + ent.len()) =~= p.subrange(i, i + ent.len()));
                }
            } else {
                assert(t[i] == e[i - p.len()]);
                assert(i == p.len());
                assert(t.subrange(i, i + e.len()) =~= e);
            }
        }
        if forall|i: int| 0 <= i < s.len() ==> !is_xml_special(#[trigger] s[i]) {
            assert(!is_xml_special(s[s.len() - 1]));
            assert(e =~= seq![s.last()]);
            assert(t =~= s);
        }
    }
}

/// Appends `text` escaped for XML content or attribute values.
pub fn push_xml_escaped(out: &mut String, text: &str)
    ensures
        final(out)@ == old(out)@ + xml_escaped(text@),
{
    let v = chars_of(text);
    let mut i: usize = 0;
    while i < v.len()
        invariant
            i <= v@.len(),
            v@ == text@,
            out@ == old(out)@ + xml_escaped(v@.take(i as int)),
        decreases v@.len() - i,
    {
        let c = v[i];
        if c == '&' {
            out.append("&amp;");
        } else if c == '<' {
            out.append("&lt;");
        } else if c == '>' {
            out.append("&gt;");
        } else if c == '"' {
            out.append("&quot;");
        } else if c == '\'' {
            out.append("&apos;");
        } else {
            push_char(out, c);
        }
        proof {
            assert(v@.take(i + 1).drop_last() =~= v@.take(i as int));
            assert(v@.take(i + 1).last() == c);
            assert(out@ =~= old(out)@ + xml_escaped(v@.take(i + 1)));
        }
        i += 1;
    }
    proof {
        assert(v@.take(v@.len() as int) =~= v@);
    }
}

/// Escapes text for use as XML element content or attribute value.
pub fn xml_escape(s: &str) -> (r: String)
    ensures
        r@ == xml_escaped(s@),
{
    let mut out = String::new();
    push_xml_escaped(&mut out, s);
    proof {
        assert(out@ =~= xml_escaped(s@));
    }
    out
}

/// The comment of a marker as text (empty when absent).
pub open spec fn comment_text(m: Marker) -> Seq<char> {
    match m.comment {
        Some(c) => c@,
        None => Seq::empty(),
    }
}

/// The `<marker>` element of one marker.
pub open spec fn xml_marker(m: Marker) -> Seq<char> {
    "  <marker>\n"@ + "    <timecode>"@ + timecode_text(m.timecode) + "</timecode>\n"@
        + "    <cue>"@ + decimal(m.cue_number as nat) + "</cue>\n"@ + "    <executor>"@ + decimal(
        m.executor as nat,
    ) + "</executor>\n"@ + "    <type>"@ + marker_type_name(m.marker_type) + "</type>\n"@
        + "    <name>"@ + xml_escaped(m.name@) + "</name>\n"@ + "    <comment>"@ + xml_escaped(
        comment_text(m),
    ) + "</comment>\n"@ + "  </marker>\n"@
}

/// The `<marker>` elements of all markers, in order.
pub open spec fn xml_markers(s: Seq<Marker>) -> Seq<char>
    decreases s.len(),
{
    if s.len() == 0 {
        Seq::empty()
    } else {
        xml_markers(s.drop_last()) + xml_marker(s.last())
    }
}

/// The whole XML document for a list of markers.
pub open spec fn xml_document(s: Seq<Marker>) -> Seq<char> {
    "<?xml version=\"1.0\" encoding=\"UTF-8\"?>\n<markers>\n"@ + xml_markers(s) + "</markers>\n"@
}

/// Law: the `<marker>` elements of two lists of markers, one after the
/// other, are the elements of the first list followed by those of the
/// second, and a single marker gives exactly its own element; so the
/// document holds one element per marker, in the markers' order.
pub proof fn law_xml_one_element_per_marker(a: Seq<Marker>, b: Seq<Marker>, x: Marker)
    ensures
        xml_markers(a + b) == xml_markers(a) + xml_markers(b),
        xml_markers(seq![x]) == xml_marker(x),
    decreases b.len(),
{
    assert(seq![x].drop_last() =~= Seq::<Marker>::empty());
    assert(seq![x].last() == x);
    assert(xml_markers(Seq::<Marker>::empty()) == Seq::<char>::empty());
    assert(Seq::<char>::empty() + xml_marker(x) =~= xml_marker(x));
    if b.len() == 0 {
        assert(a + b =~= a);
        assert(xml_markers(a) + Seq::<char>::empty() =~= xml_markers(a));
    } else {
        law_xml_one_element_per_marker(a, b.drop_last(), x);
        assert((a + b).drop_last() =~= a + b.drop_last());
        assert((a + b).last() == b.last());
        assert(xml_markers(a) + xml_markers(b.drop_last()) + xml_marker(b.last()) =~= xml_markers(a) + (xml_markers(
            b.drop_last(),
        ) + xml_marker(b.last())));
    }
}


/// Appends the `<marker>` element of one marker.
#[verifier::spinoff_prover]
#[verifier::rlimit(50)]
fn push_xml_marker(out: &mut String, m: &Marker)
    ensures
        final(out)@ == old(out)@ + xml_marker(*m),
{
    out.append("  <marker>\n");
    out.append("    <timecode>");
    m.timecode.push_text(out);
    out.append("</timecode>\n");
    out.append("    <cue>");
    push_decimal(out, m.cue_number as u64);
    out.append("</cue>\n");
    out.append("    <executor>");
    push_decimal(out, m.executor as u64);
    out.append("</executor>\n");
    out.append("    <type>");
    out.append(m.marker_type.as_str());
    out.append("</type>\n");
    out.append("    <name>");
    push_xml_escaped(out, m.name.as_str());
    out.append("</name>\n");
    out.append("    <comment>");
    match &m.comment {
        Some(c) => push_xml_escaped(out, c.as_str()),
        None => {},
    }
    out.append("</comment>\n");
    out.append("  </marker>\n");
    proof {
        assert(final(out)@ =~= old(out)@ + xml_marker(*m));
    }
}

/// Generates the XML with the structure
/// `<markers><marker><timecode/><cue/><executor/><type/><name/><comment/></marker></markers>`.
pub fn to_xml(markers: &[Marker]) -> (r: String)
    ensures
        r@ == xml_document(markers@),
{
    let mut out = String::from_str("<?xml version=\"1.0\" encoding=\"UTF-8\"?>\n<markers>\n");
    let mut i: usize = 0;
    while i < markers.len()
        invariant
            i <= markers@.len(),
            out@ == "<?xml version=\"1.0\" encoding=\"UTF-8\"?>\n<markers>\n"@ + xml_markers(
                markers@.take(i as int),
            ),
        decreases markers@.len() - i,
    {
        let ghost before = out@;
        push_xml_marker(&mut out, &markers[i]);
        proof {
            assert(markers@.take(i + 1).drop_last() =~= markers@.take(i as int));
            assert(markers@.take(i + 1).last() == markers@[i as int]);
            assert(out@ =~= "<?xml version=\"1.0\" encoding=\"UTF-8\"?>\n<markers>\n"@ + xml_markers(
                markers@.take(i + 1),
            ));
        }
        i += 1;
    }
    out.append("</markers>\n");
    proof {
        assert(markers@.take(markers@.len() as int) =~= markers@);
    }
    out
}

} // verus!
