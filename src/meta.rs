//! Column widths: the least width each displayed field needs, kept up to date
//! as tasks are added and edited, and their one-line record.

use vstd::prelude::*;
use vstd::string::*;
use crate::error::TaskerError;
use crate::task::{Task, TaskView};
use crate::text::{
    chars_of, decimal, free_of, lemma_decimal_reads_back, lemma_pieces_field, lemma_pieces_last, parse_unsigned, pieces, push_decimal, read_unsigned, spans_text, split_spans,
    sub_chars,
};

verus! {

/// The width of each displayed column.
#[derive(Debug, Clone, Copy, PartialEq, Eq, Structural)]
pub struct Meta {
    pub id: usize,
    pub name: usize,
    pub time: usize,
    pub date: usize,
    pub status: usize,
}

/// The widths as numbers.
pub struct MetaView {
    pub id: nat,
    pub name: nat,
    pub time: nat,
    pub date: nat,
    pub status: nat,
}

impl View for Meta {
    type V = MetaView;

    open spec fn view(&self) -> MetaView {
        MetaView {
            id: self.id as nat,
            name: self.name as nat,
            time: self.time as nat,
            date: self.date as nat,
            status: self.status as nat,
        }
    }
}

/// The widths of the header labels `id`, `name`, `time`, `date`, `status`.
pub open spec fn initial() -> MetaView {
    MetaView { id: 2, name: 4, time: 4, date: 4, status: 6 }
}

pub open spec fn max(a: nat, b: nat) -> nat {
    if a >= b {
        a
    } else {
        b
    }
}

/// The length of an optional value, 0 when absent.
pub open spec fn opt_len(o: Option<Seq<char>>) -> nat {
    match o {
        Some(v) => v.len(),
        None => 0,
    }
}

/// The number of characters the id of a task is shown with.
pub open spec fn id_len(t: TaskView) -> nat {
    decimal(t.id).len()
}

/// The widths grown to fit the values of one task.
pub open spec fn widen(m: MetaView, t: TaskView) -> MetaView {
    MetaView {
        id: max(m.id, id_len(t)),
        name: max(m.name, t.name.len()),
        time: max(m.time, opt_len(t.time)),
        date: max(m.date, opt_len(t.date)),
        status: max(m.status, opt_len(t.status)),
    }
}

/// The field-wise maximum of two sets of widths.
pub open spec fn merge(a: MetaView, b: MetaView) -> MetaView {
    MetaView {
        id: max(a.id, b.id),
        name: max(a.name, b.name),
        time: max(a.time, b.time),
        date: max(a.date, b.date),
        status: max(a.status, b.status),
    }
}

/// The widths two versions of a task need, and nothing more.
pub open spec fn pair_widths(a: TaskView, b: TaskView) -> MetaView {
    MetaView {
        id: max(id_len(a), id_len(b)),
        name: max(a.name.len(), b.name.len()),
        time: max(opt_len(a.time), opt_len(b.time)),
        date: max(opt_len(a.date), opt_len(b.date)),
        status: max(opt_len(a.status), opt_len(b.status)),
    }
}

/// Whether every width of `a` is at most that of `b`.
pub open spec fn no_wider(a: MetaView, b: MetaView) -> bool {
    a.id <= b.id && a.name <= b.name && a.time <= b.time && a.date <= b.date && a.status
        <= b.status
}

/// Whether the widths fit the header labels and every value of every task.
pub open spec fn covers(m: MetaView, tasks: Seq<TaskView>) -> bool {
    &&& no_wider(initial(), m)
    &&& forall|i: int| 0 <= i < tasks.len() ==> no_wider(#[trigger] widen(m, tasks[i]), m)
}

impl Meta {
    /// The widths of the header labels.
    pub fn new() -> (r: Meta)
        ensures
            r@ == initial(),
    {
        Meta { id: 2, name: 4, time: 4, date: 4, status: 6 }
    }
}

fn max_usize(a: usize, b: usize) -> (r: usize)
    ensures
        r as nat == max(a as nat, b as nat),
{
    if a >= b {
        a
    } else {
        b
    }
}

/// The number of digits of `n`.
pub fn decimal_len(n: usize) -> (r: usize)
    ensures
        r as nat == decimal(n as nat).len(),
        r <= 20,
    decreases n,
{
    if n < 10 {
        1
    } else {
        let r = decimal_len(n / 10);
        assert(r <= 19) by {
            lemma_decimal_len_bound(n as nat);
        }
        r + 1
    }
}

proof fn lemma_decimal_len_bound(n: nat)
    requires
        n >= 10,
        n <= usize::MAX,
    ensures
        decimal(n / 10).len() <= 19,
{
    reveal_with_fuel(pow10, 20);
    assert(pow10(19) == 10000000000000000000nat);
    assert(n / 10 < pow10(19));
    lemma_decimal_len_le(n / 10, 19);
}

proof fn lemma_decimal_len_le(n: nat, k: nat)
    requires
        k >= 1,
        n < pow10(k),
    ensures
        decimal(n).len() <= k,
    decreases k,
{
    if n >= 10 {
        assert(n / 10 < pow10((k - 1) as nat));
        lemma_decimal_len_le(n / 10, (k - 1) as nat);
    }
}

/// Ten to the power `k`.
pub open spec fn pow10(k: nat) -> nat
    decreases k,
{
    if k == 0 {
        1
    } else {
        10 * pow10((k - 1) as nat)
    }
}

/// The number of characters in an optional text, 0 when absent.
fn opt_text_len(o: &Option<String>) -> (r: usize)
    ensures
        r as nat == opt_len(crate::task::opt_view(*o)),
{
    match o {
        Some(v) => v.as_str().unicode_len(),
        None => 0,
    }
}

/// Grows the widths to fit the values of `task`.
pub fn task_to_meta(task: &Task, meta: &mut Meta)
    ensures
        final(meta)@ == widen(old(meta)@, task@),
{
    meta.id = max_usize(meta.id, decimal_len(task.id as usize));
    meta.name = max_usize(meta.name, task.name.as_str().unicode_len());
    meta.date = max_usize(meta.date, opt_text_len(&task.date));
    meta.time = max_usize(meta.time, opt_text_len(&task.time));
    meta.status = max_usize(meta.status, opt_text_len(&task.status));
}

/// The widths that two versions of a task need.
pub fn task_vs_task_to_meta(task: &Task, a_task: &Task) -> (r: Meta)
    ensures
        r@ == pair_widths(task@, a_task@),
{
    Meta {
        id: max_usize(decimal_len(task.id as usize), decimal_len(a_task.id as usize)),
        name: max_usize(task.name.as_str().unicode_len(), a_task.name.as_str().unicode_len()),
        time: max_usize(opt_text_len(&task.time), opt_text_len(&a_task.time)),
        date: max_usize(opt_text_len(&task.date), opt_text_len(&a_task.date)),
        status: max_usize(opt_text_len(&task.status), opt_text_len(&a_task.status)),
    }
}

/// Raises each width of `meta` to that of `a_meta` where it is larger.
pub fn meta_vs_meta_to_meta(meta: &mut Meta, a_meta: &Meta)
    ensures
        final(meta)@ == merge(old(meta)@, a_meta@),
{
    meta.id = max_usize(meta.id, a_meta.id);
    meta.name = max_usize(meta.name, a_meta.name);
    meta.status = max_usize(meta.status, a_meta.status);
    meta.date = max_usize(meta.date, a_meta.date);
    meta.time = max_usize(meta.time, a_meta.time);
}

/// The record of the widths: `i:w,n:w,d:w,t:w,s:w`, each token followed by a
/// comma and the rest.
pub open spec fn encode_meta(m: MetaView) -> Seq<char> {
    width_token('i', m.id) + seq![','] + (width_token('n', m.name) + seq![','] + (width_token(
        'd',
        m.date,
    ) + seq![','] + (width_token('t', m.time) + seq![','] + width_token('s', m.status))))
}

/// The token of one width: its tag, a colon, and the number.
pub open spec fn width_token(tag: char, v: nat) -> Seq<char> {
    seq![tag, ':'] + decimal(v)
}

/// Whether `c` tags one of the five widths.
pub open spec fn is_width_tag(c: char) -> bool {
    c == 'i' || c == 'n' || c == 'd' || c == 't' || c == 's'
}

/// The widths with the one tagged `tag` set to `v`.
pub open spec fn set_width(m: MetaView, tag: char, v: nat) -> MetaView {
    if tag == 'i' {
        MetaView { id: v, ..m }
    } else if tag == 'n' {
        MetaView { name: v, ..m }
    } else if tag == 'd' {
        MetaView { date: v, ..m }
    } else if tag == 't' {
        MetaView { time: v, ..m }
    } else {
        MetaView { status: v, ..m }
    }
}

/// Reads one token of the width record; `None` once a token is not a known
/// tag followed by a number.
pub open spec fn apply_width(acc: Option<MetaView>, tok: Seq<char>) -> Option<MetaView> {
    match acc {
        None => None,
        Some(m) => if tok.len() >= 2 && tok[1] == ':' && is_width_tag(tok[0]) {
            match parse_unsigned(tok.skip(2), usize::MAX as nat) {
                Some(v) => Some(set_width(m, tok[0], v)),
                None => None,
            }
        } else {
            None
        },
    }
}

/// Reads a sequence of width tokens, left to right, from the header widths.
pub open spec fn decode_widths(toks: Seq<Seq<char>>) -> Option<MetaView>
    decreases toks.len(),
{
    if toks.len() == 0 {
        Some(initial())
    } else {
        apply_width(decode_widths(toks.drop_last()), toks.last())
    }
}

/// The widths a width record holds, or `None` when it is malformed.
pub open spec fn decode_meta(line: Seq<char>) -> Option<MetaView> {
    decode_widths(pieces(line, seq![',']))
}

/// The token of one width.
fn width_token_string(tag: &str, v: usize) -> (r: String)
    requires
        tag@.len() == 1,
    ensures
        r@ == width_token(tag@[0], v as nat),
{
    let mut s = String::from_str(tag);
    s.append(":");
    proof {
        reveal_strlit(":");
    }
    push_decimal(&mut s, v);
    assert(s@ =~= width_token(tag@[0], v as nat));
    s
}

/// `head`, a comma, then `rest`.
fn join_comma(head: String, rest: &String) -> (r: String)
    ensures
        r@ == head@ + seq![','] + rest@,
{
    let mut s = head;
    s.append(",");
    proof {
        reveal_strlit(",");
    }
    s.append(rest.as_str());
    assert(s@ =~= head@ + seq![','] + rest@);
    s
}

/// The record of the widths.
pub fn meta_to_string(meta: &Meta) -> (r: String)
    ensures
        r@ == encode_meta(meta@),
{
    proof {
        reveal_strlit("i");
        reveal_strlit("n");
        reveal_strlit("d");
        reveal_strlit("t");
        reveal_strlit("s");
    }
    let s4 = width_token_string("s", meta.status);
    let s3 = join_comma(width_token_string("t", meta.time), &s4);
    let s2 = join_comma(width_token_string("d", meta.date), &s3);
    let s1 = join_comma(width_token_string("n", meta.name), &s2);
    join_comma(width_token_string("i", meta.id), &s1)
}

proof fn lemma_decode_widths_stays_failed(toks: Seq<Seq<char>>, j: int)
    requires
        0 <= j <= toks.len(),
        decode_widths(toks.take(j)) is None,
    ensures
        decode_widths(toks) is None,
    decreases toks.len() - j,
{
    if j < toks.len() {
        assert(toks.take(j + 1).drop_last() =~= toks.take(j));
        lemma_decode_widths_stays_failed(toks, j + 1);
    } else {
        assert(toks.take(j) =~= toks);
    }
}

/// The widths a width record holds; fails with `MalformedMetadata` on an
/// unknown tag or a value that is not a number.
pub fn string_to_meta(line: &str) -> (r: Result<Meta, TaskerError>)
    ensures
        r is Ok <==> decode_meta(line@) is Some,
        r matches Ok(m) ==> decode_meta(line@) == Some(m@),
        r matches Err(e) ==> e == TaskerError::MalformedMetadata,
{
    let chars = chars_of(line);
    let sep = vec![','];
    assert(sep@ =~= seq![',']);
    let spans = split_spans(&chars, &sep);
    let ghost toks = spans_text(chars@, spans@);
    let mut meta = Meta::new();
    assert(toks.take(0) =~= Seq::<Seq<char>>::empty());
    let mut k: usize = 0;
    while k < spans.len()
        invariant
            k <= spans.len(),
            chars@ == line@,
            toks == spans_text(chars@, spans@),
            toks == pieces(line@, seq![',']),
            forall|j: int| 0 <= j < spans.len() ==> (#[trigger] spans@[j]).0 <= spans@[j].1 && spans@[j].1 <= chars.len(),
            decode_widths(toks.take(k as int)) == Some(meta@),
        decreases spans.len() - k,
    {
        let (a, b) = spans[k];
        let ghost tok = chars@.subrange(a as int, b as int);
        assert(toks[k as int] == tok);
        assert(toks.take(k + 1).drop_last() =~= toks.take(k as int));
        assert(toks.take(k + 1).last() == tok);
        let known = b - a >= 2 && chars[a + 1] == ':' && (chars[a] == 'i' || chars[a] == 'n'
            || chars[a] == 'd' || chars[a] == 't' || chars[a] == 's');
        if !known {
            proof {
                lemma_decode_widths_stays_failed(toks, k + 1);
            }
            return Err(TaskerError::MalformedMetadata);
        }
        let digits = sub_chars(&chars, a + 2, b);
        assert(digits@ =~= tok.skip(2));
        match read_unsigned(&digits, usize::MAX) {
            Some(v) => {
                let c = chars[a];
                if c == 'i' {
                    meta.id = v;
                } else if c == 'n' {
                    meta.name = v;
                } else if c == 'd' {
                    meta.date = v;
                } else if c == 't' {
                    meta.time = v;
                } else {
                    meta.status = v;
                }
            },
            None => {
                proof {
                    lemma_decode_widths_stays_failed(toks, k + 1);
                }
                return Err(TaskerError::MalformedMetadata);
            },
        }
        k = k + 1;
    }
    assert(toks.take(k as int) =~= toks);
    Ok(meta)
}

proof fn lemma_width_token(tag: char, v: nat)
    requires
        is_width_tag(tag),
    ensures
        free_of(width_token(tag, v), ','),
        width_token(tag, v).len() >= 2,
        width_token(tag, v)[0] == tag,
        width_token(tag, v)[1] == ':',
        width_token(tag, v).skip(2) == decimal(v),
        parse_unsigned(decimal(v), usize::MAX as nat) == (if v <= usize::MAX {
            Some(v)
        } else {
            None
        }),
{
    lemma_decimal_reads_back(v);
    let w = width_token(tag, v);
    assert forall|i: int| 0 <= i < w.len() implies #[trigger] w[i] != ',' by {
        if i >= 2 {
            assert(w[i] == decimal(v)[i - 2]);
            assert(crate::text::is_digit(decimal(v)[i - 2]));
        }
    }
    assert(w.skip(2) =~= decimal(v));
}

proof fn lemma_decode_widths_push(toks: Seq<Seq<char>>, tok: Seq<char>)
    ensures
        decode_widths(toks.push(tok)) == apply_width(decode_widths(toks), tok),
{
    assert(toks.push(tok).drop_last() =~= toks);
}

proof fn lemma_meta_pieces(m: MetaView)
    ensures
        pieces(encode_meta(m), seq![',']) == seq![
            width_token('i', m.id),
            width_token('n', m.name),
            width_token('d', m.date),
            width_token('t', m.time),
            width_token('s', m.status),
        ],
{
    let ti = width_token('i', m.id);
    let tn = width_token('n', m.name);
    let td = width_token('d', m.date);
    let tt = width_token('t', m.time);
    let ts = width_token('s', m.status);
    lemma_width_token('i', m.id);
    lemma_width_token('n', m.name);
    lemma_width_token('d', m.date);
    lemma_width_token('t', m.time);
    lemma_width_token('s', m.status);
    let sep = seq![','];
    let r4 = tt + sep + ts;
    let r3 = td + sep + r4;
    let r2 = tn + sep + r3;
    lemma_pieces_last(ts, ',');
    lemma_pieces_field(tt, ts, sep);
    assert(pieces(r4, sep) =~= seq![tt, ts]);
    lemma_pieces_field(td, r4, sep);
    assert(pieces(r3, sep) =~= seq![td, tt, ts]);
    lemma_pieces_field(tn, r3, sep);
    assert(pieces(r2, sep) =~= seq![tn, td, tt, ts]);
    lemma_pieces_field(ti, r2, sep);
    assert(pieces(encode_meta(m), sep) =~= seq![ti, tn, td, tt, ts]);
}

/// Decoding the record of a set of widths gives the widths back.
pub proof fn lemma_meta_round_trip(m: MetaView)
    requires
        m.id <= usize::MAX,
        m.name <= usize::MAX,
        m.time <= usize::MAX,
        m.date <= usize::MAX,
        m.status <= usize::MAX,
    ensures
        decode_meta(encode_meta(m)) == Some(m),
{
    let ti = width_token('i', m.id);
    let tn = width_token('n', m.name);
    let td = width_token('d', m.date);
    let tt = width_token('t', m.time);
    let ts = width_token('s', m.status);
    lemma_meta_pieces(m);
    let l0 = Seq::<Seq<char>>::empty();
    let l1 = l0.push(ti);
    let l2 = l1.push(tn);
    let l3 = l2.push(td);
    let l4 = l3.push(tt);
    let l5 = l4.push(ts);
    assert(l5 =~= seq![ti, tn, td, tt, ts]);
    let m1 = MetaView { id: m.id, ..initial() };
    let m2 = MetaView { name: m.name, ..m1 };
    let m3 = MetaView { date: m.date, ..m2 };
    let m4 = MetaView { time: m.time, ..m3 };
    lemma_width_token('i', m.id);
    lemma_decode_widths_push(l0, ti);
    assert(decode_widths(l1) == Some(m1));
    lemma_width_token('n', m.name);
    lemma_decode_widths_push(l1, tn);
    assert(decode_widths(l2) == Some(m2));
    lemma_width_token('d', m.date);
    lemma_decode_widths_push(l2, td);
    assert(decode_widths(l3) == Some(m3));
    lemma_width_token('t', m.time);
    lemma_decode_widths_push(l3, tt);
    assert(decode_widths(l4) == Some(m4));
    lemma_width_token('s', m.status);
    lemma_decode_widths_push(l4, ts);
    assert(decode_widths(l5) == Some(m));
}

/// Whether every width fits a machine word.
pub open spec fn fits(m: MetaView) -> bool {
    m.id <= usize::MAX && m.name <= usize::MAX && m.time <= usize::MAX && m.date <= usize::MAX
        && m.status <= usize::MAX
}

/// Whether every value of a task is short enough to be measured in a machine word.
pub open spec fn task_fits(t: TaskView) -> bool {
    t.name.len() <= usize::MAX && opt_len(t.time) <= usize::MAX && opt_len(t.date)
        <= usize::MAX && opt_len(t.status) <= usize::MAX
}

/// An id of at most five digits is shown in at most five characters.
pub proof fn lemma_id_len_small(t: TaskView)
    requires
        t.id <= 65535,
    ensures
        id_len(t) <= 5,
{
    reveal_with_fuel(pow10, 6);
    lemma_decimal_len_le(t.id, 5);
}

/// Widths read from a width record fit a machine word.
pub proof fn lemma_decoded_widths_fit(toks: Seq<Seq<char>>)
    requires
        decode_widths(toks) is Some,
    ensures
        fits(decode_widths(toks)->0),
    decreases toks.len(),
{
    if toks.len() > 0 {
        lemma_decoded_widths_fit(toks.drop_last());
    }
}

/// Growing fitting widths by a fitting task whose id is small keeps them fitting.
pub proof fn lemma_widen_fits(m: MetaView, t: TaskView)
    requires
        fits(m),
        task_fits(t),
        t.id <= 65535,
    ensures
        fits(widen(m, t)),
{
    lemma_id_len_small(t);
}

/// Widths that fit every value of a task bound that task's lengths.
pub proof fn lemma_covered_task_fits(m: MetaView, t: TaskView)
    requires
        fits(m),
        no_wider(widen(m, t), m),
    ensures
        task_fits(t),
        id_len(t) <= usize::MAX,
{
}

} // verus!
