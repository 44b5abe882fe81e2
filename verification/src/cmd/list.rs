//! The lines that a listing prints.

use crate::config::Output;
use crate::kubeconfig::list::ListEntry;
use crate::string_map::{sorted_by_key, StringMap};
use crate::text::{concat, pad, padded};
use vstd::prelude::*;
use vstd::string::StringExecFns;

verus! {

/// Name of the command.
pub const NAME: &'static str = "list";

/// Width of a column of the table.
pub const COLUMN: usize = 25;

/// The labels `pairs` as text: `key=value`, joined by commas.
pub open spec fn joined_labels(pairs: Seq<(Seq<char>, Seq<char>)>) -> Seq<char>
    decreases pairs.len(),
{
    if pairs.len() == 0 {
        Seq::empty()
    } else if pairs.len() == 1 {
        pairs[0].0 + "="@ + pairs[0].1
    } else {
        joined_labels(pairs.drop_last()) + ","@ + pairs.last().0 + "="@ + pairs.last().1
    }
}

/// One line of the table: both columns filled up to their width, with a
/// tabulator between them.
pub open spec fn table_line(name: Seq<char>, labels: Seq<char>) -> Seq<char> {
    padded(name, COLUMN as nat) + "\t"@ + padded(labels, COLUMN as nat)
}

/// The labels as text: `key=value` in ascending order of the keys, joined
/// by commas; nothing for an entry without labels.
pub fn format_labels(map: &Option<StringMap<String>>) -> (r: String)
    ensures
        match *map {
            Some(labels) => r@ == joined_labels(labels.pairs()) && sorted_by_key(labels.pairs())
                && labels@ == crate::string_map::map_of(labels.pairs()),
            None => r@ == Seq::<char>::empty(),
        },
{
    let mut out = String::new();
    if let Some(labels) = map {
        let entries = labels.entries();
        let ghost pairs = labels.pairs();
        let mut i: usize = 0;
        assert(pairs.take(0) =~= Seq::<(Seq<char>, Seq<char>)>::empty());
        while i < entries.len()
            invariant
                i <= entries.len(),
                entries@.len() == pairs.len(),
                forall|j: int| 0 <= j < entries@.len() ==> (#[trigger] entries@[j]).0@ == pairs[j].0
                    && entries@[j].1@ == pairs[j].1,
                out@ == joined_labels(pairs.take(i as int)),
            decreases entries.len() - i,
        {
            let ghost before = out@;
            if i > 0 {
                out.append(",");
            }
            out.append(entries[i].0.as_str());
            out.append("=");
            out.append(entries[i].1.as_str());
            proof {
                let now = pairs.take(i + 1);
                assert(now.drop_last() =~= pairs.take(i as int));
                assert(now.last() == pairs[i as int]);
                if i == 0 {
                    assert(now[0] == pairs[0]);
                    assert(out@ =~= pairs[0].0 + "="@ + pairs[0].1);
                } else {
                    assert(out@ =~= before + ","@ + pairs[i as int].0 + "="@ + pairs[i as int].1);
                }
            }
            i += 1;
        }
        assert(pairs.take(i as int) =~= pairs);
    }
    out
}

/// The labels of an entry as text.
pub open spec fn labels_text(labels: Option<StringMap<String>>) -> Seq<char> {
    match labels {
        Some(l) => joined_labels(l.pairs()),
        None => Seq::empty(),
    }
}

/// The line for one entry: its name or, in the table, its name and
/// its labels.
pub open spec fn line_spec(entry: ListEntry, output: Output) -> Seq<char> {
    match output {
        Output::Name => entry.name@,
        Output::Table => table_line(entry.name@, labels_text(entry.labels)),
    }
}

/// The lines of a listing: for the table its head line, then one line
/// for each entry in order, and last, where `unset` is asked for, the
/// line `[unset]`.
pub open spec fn lines_spec(entries: Seq<ListEntry>, output: Output, unset: bool) -> Seq<Seq<char>> {
    let head = if output == Output::Table {
        seq![table_line("NAME"@, "LABELS"@)]
    } else {
        Seq::empty()
    };
    let tail = if unset {
        seq!["[unset]"@]
    } else {
        Seq::empty()
    };
    head + entries.map_values(|e: ListEntry| line_spec(e, output)) + tail
}

/// The line for one entry.
pub fn line(entry: &ListEntry, output: Output) -> (r: String)
    ensures
        r@ == line_spec(*entry, output),
{
    match output {
        Output::Name => entry.name.clone(),
        Output::Table => {
            let labels = format_labels(&entry.labels);
            let left = pad(entry.name.as_str(), COLUMN);
            let right = pad(labels.as_str(), COLUMN);
            let head = concat(left.as_str(), "\t");
            concat(head.as_str(), right.as_str())
        },
    }
}

/// The head line of the table.
pub fn header() -> (r: String)
    ensures
        r@ == table_line("NAME"@, "LABELS"@),
{
    let left = pad("NAME", COLUMN);
    let right = pad("LABELS", COLUMN);
    let head = concat(left.as_str(), "\t");
    concat(head.as_str(), right.as_str())
}

/// The lines that a listing of `entries` prints.
pub fn lines(entries: &Vec<ListEntry>, output: Output, unset: bool) -> (r: Vec<String>)
    ensures
        r@.map_values(|l: String| l@) == lines_spec(entries@, output, unset),
{
    let mut out: Vec<String> = Vec::new();
    let ghost head = if output == Output::Table {
        seq![table_line("NAME"@, "LABELS"@)]
    } else {
        Seq::empty()
    };
    if output == Output::Table {
        out.push(header());
    }
    assert(out@.map_values(|l: String| l@) =~= head + entries@.take(0).map_values(
        |e: ListEntry| line_spec(e, output),
    ));
    let mut i: usize = 0;
    while i < entries.len()
        invariant
            i <= entries.len(),
            out@.map_values(|l: String| l@) == head + entries@.take(i as int).map_values(
                |e: ListEntry| line_spec(e, output),
            ),
        decreases entries.len() - i,
    {
        let ghost before = out@.map_values(|l: String| l@);
        let text = line(&entries[i], output);
        out.push(text);
        assert(out@.map_values(|l: String| l@) =~= before.push(text@));
        assert(entries@.take(i + 1).map_values(|e: ListEntry| line_spec(e, output))
            =~= entries@.take(i as int).map_values(|e: ListEntry| line_spec(e, output)).push(
            line_spec(entries@[i as int], output),
        ));
        assert(out@.map_values(|l: String| l@) =~= head + entries@.take(i + 1).map_values(
            |e: ListEntry| line_spec(e, output),
        ));
        i += 1;
    }
    assert(entries@.take(i as int) =~= entries@);
    let ghost before = out@.map_values(|l: String| l@);
    if unset {
        out.push("[unset]".to_owned());
        assert(out@.map_values(|l: String| l@) =~= before + seq!["[unset]"@]);
    } else {
        assert(before + Seq::<Seq<char>>::empty() =~= before);
    }
    out
}

} // verus!
