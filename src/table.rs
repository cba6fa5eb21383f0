//! The aligned table: each value centred in its column, columns separated by `|`.

use vstd::prelude::*;
use vstd::string::*;
use crate::meta::{Meta, MetaView};
use crate::task::{Task, TaskView};
use crate::text::{decimal, push_decimal};

verus! {

/// `n` blanks.
pub open spec fn spaces(n: nat) -> Seq<char> {
    Seq::new(n, |i: int| ' ')
}

/// How many blanks a value needs to fill a column of width `w`.
pub open spec fn pad_of(v: Seq<char>, w: nat) -> nat {
    if w > v.len() {
        (w - v.len()) as nat
    } else {
        0
    }
}

/// A cell: the left separator, then `v` centred in width `w`; an odd blank
/// goes to the right.
pub open spec fn cell(v: Seq<char>, w: nat) -> Seq<char> {
    seq!['|'] + spaces(pad_of(v, w) / 2) + v + spaces((pad_of(v, w) - pad_of(v, w) / 2) as nat)
}

/// What an optional value is shown as: itself, or a single blank.
pub open spec fn shown(o: Option<Seq<char>>) -> Seq<char> {
    match o {
        Some(v) => v,
        None => seq![' '],
    }
}

/// The row of a task, columns id, name, date, time, status.
pub open spec fn row(t: TaskView, m: MetaView) -> Seq<char> {
    cell(decimal(t.id), m.id) + cell(t.name, m.name) + cell(shown(t.date), m.date) + cell(
        shown(t.time),
        m.time,
    ) + cell(shown(t.status), m.status) + seq!['|']
}

/// The header row: the column labels in the same columns as the rows.
pub open spec fn header(m: MetaView) -> Seq<char> {
    cell(seq!['i', 'd'], m.id) + cell(seq!['n', 'a', 'm', 'e'], m.name) + cell(
        seq!['d', 'a', 't', 'e'],
        m.date,
    ) + cell(seq!['t', 'i', 'm', 'e'], m.time) + cell(
        seq!['s', 't', 'a', 't', 'u', 's'],
        m.status,
    ) + seq!['|']
}

/// Appends `n` blanks to `out`.
fn push_spaces(out: &mut String, n: usize)
    ensures
        final(out)@ == old(out)@ + spaces(n as nat),
{
    let mut k: usize = 0;
    while k < n
        invariant
            k <= n,
            out@ == old(out)@ + spaces(k as nat),
        decreases n - k,
    {
        out.append(" ");
        proof {
            reveal_strlit(" ");
        }
        k = k + 1;
        assert(out@ =~= old(out)@ + spaces(k as nat));
    }
}

/// Appends the cell of `v` in a column of width `l` to `out`.
pub fn format(out: &mut String, v: &str, l: usize)
    ensures
        final(out)@ == old(out)@ + cell(v@, l as nat),
{
    let len = v.unicode_len();
    let pad: usize = if l > len { l - len } else { 0 };
    out.append("|");
    proof {
        reveal_strlit("|");
    }
    push_spaces(out, pad / 2);
    out.append(v);
    push_spaces(out, pad - pad / 2);
    assert(final(out)@ =~= old(out)@ + cell(v@, l as nat));
}

/// Appends the cell of an optional value to `out`.
fn format_opt(out: &mut String, v: &Option<String>, l: usize)
    ensures
        final(out)@ == old(out)@ + cell(shown(crate::task::opt_view(*v)), l as nat),
{
    match v {
        Some(s) => format(out, s.as_str(), l),
        None => {
            proof {
                reveal_strlit(" ");
            }
            assert(" "@ =~= seq![' ']);
            format(out, " ", l);
        },
    }
}

/// The header row for the widths `meta`.
pub fn header_line(meta: &Meta) -> (r: String)
    ensures
        r@ == header(meta@),
{
    proof {
        reveal_strlit("id");
        reveal_strlit("name");
        reveal_strlit("date");
        reveal_strlit("time");
        reveal_strlit("status");
        reveal_strlit("|");
    }
    assert("id"@ =~= seq!['i', 'd']);
    assert("name"@ =~= seq!['n', 'a', 'm', 'e']);
    assert("date"@ =~= seq!['d', 'a', 't', 'e']);
    assert("time"@ =~= seq!['t', 'i', 'm', 'e']);
    assert("status"@ =~= seq!['s', 't', 'a', 't', 'u', 's']);
    assert("|"@ =~= seq!['|']);
    let mut line = String::new();
    format(&mut line, "id", meta.id);
    format(&mut line, "name", meta.name);
    format(&mut line, "date", meta.date);
    format(&mut line, "time", meta.time);
    format(&mut line, "status", meta.status);
    line.append("|");
    assert(line@ == header(meta@));
    line
}

/// The row of `task` for the widths `meta`.
pub fn row_line(task: &Task, meta: &Meta) -> (r: String)
    ensures
        r@ == row(task@, meta@),
{
    let mut id = String::new();
    push_decimal(&mut id, task.id as usize);
    assert(id@ =~= decimal(task.id as nat));
    let mut line = String::new();
    format(&mut line, id.as_str(), meta.id);
    format(&mut line, task.name.as_str(), meta.name);
    format_opt(&mut line, &task.date, meta.date);
    format_opt(&mut line, &task.time, meta.time);
    format_opt(&mut line, &task.status, meta.status);
    line.append("|");
    proof {
        reveal_strlit("|");
    }
    assert(line@ =~= row(task@, meta@));
    line
}

/// The table: the header row, then one row per task in order.
pub fn render_table(tasks: &Vec<Task>, meta: &Meta) -> (r: Vec<String>)
    ensures
        r.len() == tasks.len() + 1,
        r@[0]@ == header(meta@),
        forall|i: int| 0 <= i < tasks.len() ==> (#[trigger] r@[i + 1])@ == row(tasks@[i]@, meta@),
{
    let mut lines: Vec<String> = Vec::new();
    lines.push(header_line(meta));
    let mut k: usize = 0;
    while k < tasks.len()
        invariant
            k <= tasks.len(),
            lines.len() == k + 1,
            lines@[0]@ == header(meta@),
            forall|i: int| 0 <= i < k ==> (#[trigger] lines@[i + 1])@ == row(tasks@[i]@, meta@),
        decreases tasks.len() - k,
    {
        lines.push(row_line(&tasks[k], meta));
        k = k + 1;
    }
    lines
}

} // verus!
