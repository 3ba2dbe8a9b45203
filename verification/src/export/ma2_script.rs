//! Text script and macro for the GrandMA2.
//!
//! Command lines per marker:
//! - `Store Executor N Cue N`: creates the cue on the executor
//! - `Assign Timecode HH:MM:SS:FF Executor N Cue N`: assigns the timecode
//!
//! Besides the text script, the macro XML
//! (`<Macro><MacroLine command=../></Macro>`) is produced, the import format
//! of the console (Setup → Import/Export → Import → Macro).

use vstd::prelude::*;

use crate::export::xml::{push_xml_escaped, xml_escaped};
use crate::markers::model::Marker;
use crate::text::{
    decimal, decimal_pad2, is_ascii_digit, lemma_decimal_digits, lemma_decimal_pad2_digits,
    lemma_split_append, lemma_split_none, push_decimal, split_at_char,
};
use crate::timecode::model::timecode_text;

verus! {

/// `Store Executor N Cue N` for one marker.
pub open spec fn store_command(m: Marker) -> Seq<char> {
    "Store Executor "@ + decimal(m.executor as nat) + " Cue "@ + decimal(m.cue_number as nat)
}

/// `Assign Timecode HH:MM:SS:FF Executor N Cue N` for one marker.
pub open spec fn assign_command(m: Marker) -> Seq<char> {
    "Assign Timecode "@ + timecode_text(m.timecode) + " Executor "@ + decimal(m.executor as nat)
        + " Cue "@ + decimal(m.cue_number as nat)
}

/// The commands for all markers, in order: store, then assign, per marker.
pub open spec fn ma2_command_list(s: Seq<Marker>) -> Seq<Seq<char>>
    decreases s.len(),
{
    if s.len() == 0 {
        Seq::empty()
    } else {
        ma2_command_list(s.drop_last()).push(store_command(s.last())).push(
            assign_command(s.last()),
        )
    }
}

/// The commands as text, each followed by a line break.
pub open spec fn terminated_lines(cmds: Seq<Seq<char>>) -> Seq<char>
    decreases cmds.len(),
{
    if cmds.len() == 0 {
        Seq::empty()
    } else {
        terminated_lines(cmds.drop_last()) + cmds.last() + "\n"@
    }
}

/// One `<MacroLine command=".."/>` line.
pub open spec fn macro_line(cmd: Seq<char>) -> Seq<char> {
    "  <MacroLine command=\""@ + xml_escaped(cmd) + "\"/>\n"@
}

/// The macro lines of all commands, in order.
pub open spec fn macro_lines(cmds: Seq<Seq<char>>) -> Seq<char>
    decreases cmds.len(),
{
    if cmds.len() == 0 {
        Seq::empty()
    } else {
        macro_lines(cmds.drop_last()) + macro_line(cmds.last())
    }
}

/// The whole macro XML document.
pub open spec fn macro_document(name: Seq<char>, cmds: Seq<Seq<char>>) -> Seq<char> {
    "<?xml version=\"1.0\" encoding=\"UTF-8\"?>\n"@ + "<Macro name=\""@ + xml_escaped(name)
        + "\">\n"@ + macro_lines(cmds) + "</Macro>\n"@
}

/// Law: the commands of two lists of markers, one after the other, are the
/// commands of the first list followed by those of the second, and a single
/// marker gives its `Store` command followed by its `Assign Timecode`
/// command; so every cue is stored before its timecode is assigned.
pub proof fn law_commands_store_then_assign(a: Seq<Marker>, b: Seq<Marker>, x: Marker)
    ensures
        ma2_command_list(a + b) == ma2_command_list(a) + ma2_command_list(b),
        ma2_command_list(seq![x]) == seq![store_command(x), assign_command(x)],
    decreases b.len(),
{
    assert(seq![x].drop_last() =~= Seq::<Marker>::empty());
    assert(seq![x].last() == x);
    assert(ma2_command_list(Seq::<Marker>::empty()) == Seq::<Seq<char>>::empty());
    assert(Seq::<Seq<char>>::empty().push(store_command(x)).push(assign_command(x)) =~= seq![
        store_command(x),
        assign_command(x),
    ]);
    if b.len() == 0 {
        assert(a + b =~= a);
        assert(ma2_command_list(a) + Seq::<Seq<char>>::empty() =~= ma2_command_list(a));
    } else {
        law_commands_store_then_assign(a, b.drop_last(), x);
        assert((a + b).drop_last() =~= a + b.drop_last());
        assert((a + b).last() == b.last());
        assert((ma2_command_list(a) + ma2_command_list(b.drop_last())).push(
            store_command(b.last()),
        ).push(assign_command(b.last())) =~= ma2_command_list(a) + ma2_command_list(
            b.drop_last(),
        ).push(store_command(b.last())).push(assign_command(b.last())));
    }
}

/// Law: the macro lines of two lists of commands, one after the other, are
/// the lines of the first list followed by those of the second, and a single
/// command gives exactly its own `MacroLine`; so line `k` of the macro is
/// the line of command `k`, in the commands' order.
pub proof fn law_macro_one_line_per_command(a: Seq<Seq<char>>, b: Seq<Seq<char>>, x: Seq<char>)
    ensures
        macro_lines(a + b) == macro_lines(a) + macro_lines(b),
        macro_lines(seq![x]) == macro_line(x),
    decreases b.len(),
{
    assert(seq![x].drop_last() =~= Seq::<Seq<char>>::empty());
    assert(seq![x].last() == x);
    assert(macro_lines(Seq::<Seq<char>>::empty()) == Seq::<char>::empty());
    assert(Seq::<char>::empty() + macro_line(x) =~= macro_line(x));
    if b.len() == 0 {
        assert(a + b =~= a);
        assert(macro_lines(a) + Seq::<char>::empty() =~= macro_lines(a));
    } else {
        law_macro_one_line_per_command(a, b.drop_last(), x);
        assert((a + b).drop_last() =~= a + b.drop_last());
        assert((a + b).last() == b.last());
        assert(macro_lines(a) + macro_lines(b.drop_last()) + macro_line(b.last()) =~= macro_lines(a) + (macro_lines(
            b.drop_last(),
        ) + macro_line(b.last())));
    }
}

/// Law: the script text of two lists of commands, one after the other, is
/// the text of the first list followed by that of the second, and a single
/// command is written as itself followed by a line break.
pub proof fn law_script_one_line_per_command(a: Seq<Seq<char>>, b: Seq<Seq<char>>, x: Seq<char>)
    ensures
        terminated_lines(a + b) == terminated_lines(a) + terminated_lines(b),
        terminated_lines(seq![x]) == x + "\n"@,
    decreases b.len(),
{
    assert(seq![x].drop_last() =~= Seq::<Seq<char>>::empty());
    assert(seq![x].last() == x);
    assert(terminated_lines(Seq::<Seq<char>>::empty()) == Seq::<char>::empty());
    assert(Seq::<char>::empty() + x + "\n"@ =~= x + "\n"@);
    if b.len() == 0 {
        assert(a + b =~= a);
        assert(terminated_lines(a) + Seq::<char>::empty() =~= terminated_lines(a));
    } else {
        law_script_one_line_per_command(a, b.drop_last(), x);
        assert((a + b).drop_last() =~= a + b.drop_last());
        assert((a + b).last() == b.last());
        assert(terminated_lines(a) + terminated_lines(b.drop_last()) + b.last() + "\n"@ =~= terminated_lines(a) + (terminated_lines(
            b.drop_last(),
        ) + b.last() + "\n"@));
    }
}


/// Splitting the text of terminated lines, followed by a last piece without
/// line breaks, at its line breaks gives back the lines and that piece.
proof fn lemma_split_terminated(cmds: Seq<Seq<char>>, tail: Seq<char>)
    requires
        forall|i: int, k: int|
            0 <= i < cmds.len() && 0 <= k < cmds[i].len() ==> #[trigger] cmds[i][k] != '\n',
        forall|k: int| 0 <= k < tail.len() ==> tail[k] != '\n',
    ensures
        split_at_char(terminated_lines(cmds) + tail, '\n') == cmds.push(tail),
    decreases cmds.len(),
{
    reveal_strlit("\n");
    if cmds.len() == 0 {
        assert(terminated_lines(cmds) + tail =~= tail);
        lemma_split_none(tail, '\n');
        assert(cmds.push(tail) =~= seq![tail]);
    } else {
        let prev = cmds.drop_last();
        let last = cmds.last();
        assert forall|i: int, k: int|
            0 <= i < prev.len() && 0 <= k < prev[i].len() implies #[trigger] prev[i][k] != '\n' by {
            assert(prev[i] == cmds[i]);
        }
        assert forall|k: int| 0 <= k < last.len() implies last[k] != '\n' by {
            assert(cmds[cmds.len() - 1][k] != '\n');
        }
        lemma_split_terminated(prev, last);
        assert(terminated_lines(cmds) + tail =~= (terminated_lines(prev) + last) + seq!['\n'] + tail);
        lemma_split_append(terminated_lines(prev) + last, '\n', tail);
        assert(prev.push(last) =~= cmds);
    }
}

proof fn lemma_no_break_decimal(n: nat)
    ensures
        forall|k: int| 0 <= k < decimal(n).len() ==> #[trigger] decimal(n)[k] != '\n',
{
    lemma_decimal_digits(n);
    assert forall|k: int| 0 <= k < decimal(n).len() implies #[trigger] decimal(n)[k] != '\n' by {
        assert(is_ascii_digit(decimal(n)[k]));
    }
}

proof fn lemma_commands_have_no_break(s: Seq<Marker>)
    ensures
        forall|i: int, k: int|
            0 <= i < ma2_command_list(s).len() && 0 <= k < ma2_command_list(s)[i].len()
                ==> #[trigger] ma2_command_list(s)[i][k] != '\n',
    decreases s.len(),
{
    if s.len() > 0 {
        lemma_commands_have_no_break(s.drop_last());
        let m = s.last();
        reveal_strlit("Store Executor ");
        reveal_strlit(" Cue ");
        reveal_strlit("Assign Timecode ");
        reveal_strlit(" Executor ");
        lemma_no_break_decimal(m.executor as nat);
        lemma_no_break_decimal(m.cue_number as nat);
        lemma_decimal_pad2_digits(m.timecode.hours as nat);
        lemma_decimal_pad2_digits(m.timecode.minutes as nat);
        lemma_decimal_pad2_digits(m.timecode.seconds as nat);
        lemma_decimal_pad2_digits(m.timecode.frames as nat);
        let st = store_command(m);
        let asg = assign_command(m);
        assert forall|k: int| 0 <= k < st.len() implies st[k] != '\n' by {
            let e = decimal(m.executor as nat);
            let c = decimal(m.cue_number as nat);
            assert(st =~= "Store Executor "@ + e + " Cue "@ + c);
            if k >= 15 && k < 15 + e.len() {
                assert(st[k] == e[k - 15]);
            } else if k >= 20 + e.len() {
                assert(st[k] == c[k - 20 - e.len()]);
            }
        }
        assert forall|k: int| 0 <= k < asg.len() implies asg[k] != '\n' by {
            let t = timecode_text(m.timecode);
            let e = decimal(m.executor as nat);
            let c = decimal(m.cue_number as nat);
            let h = decimal_pad2(m.timecode.hours as nat);
            let mi = decimal_pad2(m.timecode.minutes as nat);
            let se = decimal_pad2(m.timecode.seconds as nat);
            let fr = decimal_pad2(m.timecode.frames as nat);
            assert(t =~= h + seq![':'] + mi + seq![':'] + se + seq![':'] + fr);
            assert forall|j: int| 0 <= j < t.len() implies t[j] != '\n' by {
                if j < h.len() {
                    assert(is_ascii_digit(h[j]));
                } else if j == h.len() {
                } else if j < h.len() + 1 + mi.len() {
                    assert(is_ascii_digit(mi[j - h.len() - 1]));
                } else if j == h.len() + 1 + mi.len() {
                } else if j < h.len() + 2 + mi.len() + se.len() {
                    assert(is_ascii_digit(se[j - h.len() - 2 - mi.len()]));
                } else if j == h.len() + 2 + mi.len() + se.len() {
                } else {
                    assert(is_ascii_digit(fr[j - h.len() - 3 - mi.len() - se.len()]));
                }
            }
            assert(asg =~= "Assign Timecode "@ + t + " Executor "@ + e + " Cue "@ + c);
            if k >= 16 && k < 16 + t.len() {
                assert(asg[k] == t[k - 16]);
            } else if k >= 26 + t.len() && k < 26 + t.len() + e.len() {
                assert(asg[k] == e[k - 26 - t.len()]);
            } else if k >= 31 + t.len() + e.len() {
                assert(asg[k] == c[k - 31 - t.len() - e.len()]);
            }
        }
        let l = ma2_command_list(s);
        let p = ma2_command_list(s.drop_last());
        assert(l == p.push(st).push(asg));
        assert forall|i: int, k: int| 0 <= i < l.len() && 0 <= k < l[i].len() implies #[trigger] l[i][k]
            != '\n' by {
            if i < p.len() {
                assert(l[i] == p[i]);
            } else if i == p.len() {
                assert(l[i] == st);
            } else {
                assert(l[i] == asg);
            }
        }
    }
}

/// Law: the lines of the text script are exactly the commands of the macro
/// (`to_ma2_macro_xml` makes one macro line per line of `to_ma2_commands`):
/// splitting the script at its line breaks gives the commands and a last,
/// empty piece.
pub proof fn law_script_lines_are_macro_commands(s: Seq<Marker>)
    ensures
        split_at_char(terminated_lines(ma2_command_list(s)), '\n') == ma2_command_list(s).push(
            Seq::<char>::empty(),
        ),
{
    lemma_commands_have_no_break(s);
    lemma_split_terminated(ma2_command_list(s), Seq::<char>::empty());
    assert(terminated_lines(ma2_command_list(s)) + Seq::<char>::empty() =~= terminated_lines(
        ma2_command_list(s),
    ));
}

/// Appends `Store Executor N Cue N`.
fn push_store_command(out: &mut String, m: &Marker)
    ensures
        final(out)@ == old(out)@ + store_command(*m),
{
    out.append("Store Executor ");
    push_decimal(out, m.executor as u64);
    out.append(" Cue ");
    push_decimal(out, m.cue_number as u64);
    proof {
        assert(final(out)@ =~= old(out)@ + store_command(*m));
    }
}

/// Appends `Assign Timecode HH:MM:SS:FF Executor N Cue N`.
fn push_assign_command(out: &mut String, m: &Marker)
    ensures
        final(out)@ == old(out)@ + assign_command(*m),
{
    out.append("Assign Timecode ");
    m.timecode.push_text(out);
    out.append(" Executor ");
    push_decimal(out, m.executor as u64);
    out.append(" Cue ");
    push_decimal(out, m.cue_number as u64);
    proof {
        assert(final(out)@ =~= old(out)@ + assign_command(*m));
    }
}

/// Generates the MA2 commands (one line per command) for all markers.
pub fn to_ma2_commands(markers: &[Marker]) -> (r: String)
    ensures
        r@ == terminated_lines(ma2_command_list(markers@)),
{
    let mut out = String::new();
    let mut i: usize = 0;
    while i < markers.len()
        invariant
            i <= markers@.len(),
            out@ == terminated_lines(ma2_command_list(markers@.take(i as int))),
        decreases markers@.len() - i,
    {
        let m = &markers[i];
        push_store_command(&mut out, m);
        out.append("\n");
        push_assign_command(&mut out, m);
        out.append("\n");
        proof {
            let t = markers@.take(i + 1);
            assert(t.drop_last() =~= markers@.take(i as int));
            assert(t.last() == markers@[i as int]);
            let l = ma2_command_list(t);
            let p = ma2_command_list(t.drop_last());
            assert(l.drop_last() =~= p.push(store_command(t.last())));
            assert(l.drop_last().drop_last() =~= p);
            assert(terminated_lines(l.drop_last()) == terminated_lines(p) + store_command(
                t.last(),
            ) + "\n"@);
            assert(terminated_lines(l) == terminated_lines(l.drop_last()) + assign_command(
                t.last(),
            ) + "\n"@);
            assert(out@ =~= terminated_lines(l));
        }
        i += 1;
    }
    proof {
        assert(markers@.take(markers@.len() as int) =~= markers@);
    }
    out
}

/// Generates a GrandMA2 macro `.xml` file from a list of commands.
///
/// Each command becomes a `<MacroLine command="..."/>`. The `Wait`, `Info`
/// and `Disabled` parameters stay at their defaults (0, "" and false).
pub fn to_macro_xml(macro_name: &str, commands: &[String]) -> (r: String)
    ensures
        r@ == macro_document(macro_name@, commands@.map_values(|c: String| c@)),
{
    let ghost cmds = commands@.map_values(|c: String| c@);
    let mut out = String::from_str("<?xml version=\"1.0\" encoding=\"UTF-8\"?>\n");
    out.append("<Macro name=\"");
    push_xml_escaped(&mut out, macro_name);
    out.append("\">\n");
    let ghost head = out@;
    let mut i: usize = 0;
    while i < commands.len()
        invariant
            i <= commands@.len(),
            cmds == commands@.map_values(|c: String| c@),
            out@ == head + macro_lines(cmds.take(i as int)),
        decreases commands@.len() - i,
    {
        out.append("  <MacroLine command=\"");
        push_xml_escaped(&mut out, commands[i].as_str());
        out.append("\"/>\n");
        proof {
            assert(cmds.take(i + 1).drop_last() =~= cmds.take(i as int));
            assert(cmds.take(i + 1).last() == commands@[i as int]@);
            assert(out@ =~= head + macro_lines(cmds.take(i + 1)));
        }
        i += 1;
    }
    out.append("</Macro>\n");
    proof {
        assert(cmds.take(cmds.len() as int) =~= cmds);
        assert(out@ =~= macro_document(macro_name@, cmds));
    }
    out
}

/// Convenience: the MA2 macro XML built from the markers' commands.
pub fn to_ma2_macro_xml(macro_name: &str, markers: &[Marker]) -> (r: String)
    ensures
        r@ == macro_document(macro_name@, ma2_command_list(markers@)),
{
    let mut commands: Vec<String> = Vec::new();
    let mut i: usize = 0;
    while i < markers.len()
        invariant
            i <= markers@.len(),
            commands@.map_values(|c: String| c@) == ma2_command_list(markers@.take(i as int)),
        decreases markers@.len() - i,
    {
        let m = &markers[i];
        let mut store = String::new();
        push_store_command(&mut store, m);
        let mut assign = String::new();
        push_assign_command(&mut assign, m);
        let ghost before = commands@;
        commands.push(store);
        commands.push(assign);
        proof {
            let t = markers@.take(i + 1);
            assert(t.drop_last() =~= markers@.take(i as int));
            assert(t.last() == markers@[i as int]);
            assert(commands@.map_values(|c: String| c@) =~= before.map_values(|c: String| c@).push(
                store_command(t.last()),
            ).push(assign_command(t.last())));
        }
        i += 1;
    }
    proof {
        assert(markers@.take(markers@.len() as int) =~= markers@);
    }
    to_macro_xml(macro_name, commands.as_slice())
}

} // verus!
