//! What the show and export commands print for the entries a query returned.

use crate::repository::LogEntry;
use vstd::prelude::*;

verus! {

/// The tags joined with `-`, as they are displayed.
pub open spec fn dash_joined(t: Seq<Seq<char>>) -> Seq<char>
    decreases t.len(),
{
    if t.len() == 0 {
        Seq::empty()
    } else if t.len() == 1 {
        t[0]
    } else {
        dash_joined(t.drop_last()) + seq!['-'] + t.last()
    }
}

/// The line that shows one entry: `-> <instant> : <text> [<tags>]`, the
/// instant in its display form.
pub open spec fn show_line(e: LogEntry) -> Seq<char> {
    seq!['-', '>', ' '] + e.created_at.display_text() + seq![' ', ':', ' '] + e.text@ + seq![' ', '['] + dash_joined(e.tags@) + seq![']']
}

/// The table row that exports one entry, the instant in its display form.
/// The row is left unclosed: the next row or the end of the table follows.
pub open spec fn html_row(e: LogEntry) -> Seq<char> {
    "<tr><td>"@ + e.created_at.display_text() + "</td><td>"@ + e.text@ + "</td><td>"@ + dash_joined(e.tags@) + "</td>"@
}

/// The export table's rows, in order.
pub open spec fn html_rows(es: Seq<LogEntry>) -> Seq<char>
    decreases es.len(),
{
    if es.len() == 0 {
        Seq::empty()
    } else {
        html_rows(es.drop_last()) + html_row(es.last())
    }
}

/// Every entry's instant has the canonical text form.
pub open spec fn all_canonical(es: Seq<LogEntry>) -> bool {
    forall|i: int| 0 <= i < es.len() ==> (#[trigger] es[i]).created_at.wf()
}

/// The tags of an entry joined with `-`.
fn dash_join(tags: &Vec<String>) -> (r: String)
    ensures
        r@ == dash_joined(tags@.map_values(|t: String| t@)),
{
    let ghost t = tags@.map_values(|t: String| t@);
    let mut out = String::new();
    let mut i: usize = 0;
    assert(t.take(0) =~= Seq::<Seq<char>>::empty());
    while i < tags.len()
        invariant
            i <= tags@.len(),
            t == tags@.map_values(|t: String| t@),
            out@ == dash_joined(t.take(i as int)),
        decreases tags@.len() - i,
    {
        assert(t.take(i + 1).drop_last() =~= t.take(i as int));
        if i > 0 {
            out.append("-");
        }
        out.append(tags[i].as_str());
        proof {
            reveal_strlit("-");
            assert(out@ =~= dash_joined(t.take(i + 1)));
        }
        i = i + 1;
    }
    assert(t.take(i as int) =~= t);
    out
}

/// The lines that show the entries, one per entry in order; `None` where
/// there are no entries, which is reported as "no record found".
pub fn show_lines(entries: &Vec<LogEntry>) -> (r: Option<Vec<String>>)
    requires
        all_canonical(entries@),
    ensures
        r is None <==> entries@.len() == 0,
        r matches Some(lines) ==> lines@.len() == entries@.len() && forall|i: int|
            0 <= i < lines@.len() ==> (#[trigger] lines@[i])@ == show_line(entries@[i]),
{
    if entries.len() == 0 {
        return None;
    }
    let mut lines: Vec<String> = Vec::new();
    let mut i: usize = 0;
    while i < entries.len()
        invariant
            i <= entries@.len(),
            all_canonical(entries@),
            lines@.len() == i,
            forall|k: int| 0 <= k < i ==> (#[trigger] lines@[k])@ == show_line(entries@[k]),
        decreases entries@.len() - i,
    {
        let e = &entries[i];
        assert(e.created_at.wf());
        let mut line = String::from_str("-> ");
        line.append(e.created_at.to_display_text().as_str());
        line.append(" : ");
        line.append(e.text.as_str());
        line.append(" [");
        line.append(dash_join(e.tags.as_vec()).as_str());
        line.append("]");
        proof {
            reveal_strlit("-> ");
            reveal_strlit(" : ");
            reveal_strlit(" [");
            reveal_strlit("]");
            assert(line@ =~= show_line(*e));
        }
        lines.push(line);
        i = i + 1;
    }
    Some(lines)
}

/// The export document: a table with a header row and one row per entry;
/// `None` where there are no entries, which is reported as "no record found".
pub fn export_html(entries: &Vec<LogEntry>) -> (r: Option<String>)
    requires
        all_canonical(entries@),
    ensures
        r is None <==> entries@.len() == 0,
        r matches Some(doc) ==> doc@ == "<table><tr><th>Date</th><th>Log</th><th>Tags</th></tr>"@
            + html_rows(entries@) + "</table>"@,
{
    if entries.len() == 0 {
        return None;
    }
    let mut doc = String::from_str("<table><tr><th>Date</th><th>Log</th><th>Tags</th></tr>");
    let ghost head = doc@;
    let mut i: usize = 0;
    assert(entries@.take(0) =~= Seq::<LogEntry>::empty());
    assert(doc@ =~= head + html_rows(entries@.take(0)));
    while i < entries.len()
        invariant
            i <= entries@.len(),
            all_canonical(entries@),
            head == "<table><tr><th>Date</th><th>Log</th><th>Tags</th></tr>"@,
            doc@ == head + html_rows(entries@.take(i as int)),
        decreases entries@.len() - i,
    {
        let e = &entries[i];
        assert(e.created_at.wf());
        assert(entries@.take(i + 1).drop_last() =~= entries@.take(i as int));
        let ghost before = doc@;
        doc.append("<tr><td>");
        doc.append(e.created_at.to_display_text().as_str());
        doc.append("</td><td>");
        doc.append(e.text.as_str());
        doc.append("</td><td>");
        doc.append(dash_join(e.tags.as_vec()).as_str());
        doc.append("</td>");
        assert(doc@ =~= before + html_row(*e));
        assert(doc@ =~= head + html_rows(entries@.take(i + 1)));
        i = i + 1;
    }
    assert(entries@.take(i as int) =~= entries@);
    doc.append("</table>");
    Some(doc)
}

} // verus!
