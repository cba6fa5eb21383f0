//! A task and its one-line record encoding.

use vstd::prelude::*;
use vstd::string::*;
use crate::error::TaskerError;
use crate::text::{
    chars_of, decimal, free_of, is_digit, lemma_decimal_reads_back, lemma_pieces_field, lemma_pieces_last, parse_unsigned, pieces, push_decimal, read_unsigned, spans_text, split_spans,
    sub_chars,
};

verus! {

/// The largest id a task can carry.
pub const MAX_ID: u16 = 65535;

/// One tracked item.
#[derive(Debug)]
pub struct Task {
    pub id: u16,
    pub name: String,
    pub time: Option<String>,
    pub date: Option<String>,
    pub status: Option<String>,
}

/// The value of a task: its id and the characters of its fields.
pub struct TaskView {
    pub id: nat,
    pub name: Seq<char>,
    pub time: Option<Seq<char>>,
    pub date: Option<Seq<char>>,
    pub status: Option<Seq<char>>,
}

/// The characters of an optional text.
pub open spec fn opt_view(o: Option<String>) -> Option<Seq<char>> {
    match o {
        Some(s) => Some(s@),
        None => None,
    }
}

impl View for Task {
    type V = TaskView;

    open spec fn view(&self) -> TaskView {
        TaskView {
            id: self.id as nat,
            name: self.name@,
            time: opt_view(self.time),
            date: opt_view(self.date),
            status: opt_view(self.status),
        }
    }
}

/// The task a record starts from before any of its fields is read.
pub open spec fn blank_task() -> TaskView {
    TaskView { id: 0, name: Seq::empty(), time: None, date: None, status: None }
}

/// The status written for a task that has none.
pub open spec fn default_status() -> Seq<char> {
    seq!['T', 'O', 'D', 'O']
}

/// The status a task is written and shown with.
pub open spec fn status_text(st: Option<Seq<char>>) -> Seq<char> {
    match st {
        Some(v) => v,
        None => default_status(),
    }
}

/// A field token: a one-letter tag, a colon, and the value.
pub open spec fn tagged(tag: char, v: Seq<char>) -> Seq<char> {
    seq![tag, ':'] + v
}

/// An optional field token followed by the field separator, or nothing.
pub open spec fn optional_field(tag: char, v: Option<Seq<char>>) -> Seq<char> {
    match v {
        Some(x) => tagged(tag, x).push('|'),
        None => Seq::empty(),
    }
}

/// The record of a task: `@id|n:name|[d:date|][t:time|]s:status`.
pub open spec fn encode_task(t: TaskView) -> Seq<char> {
    seq!['@'] + decimal(t.id) + seq!['|'] + tagged('n', t.name) + seq!['|']
        + optional_field('d', t.date) + optional_field('t', t.time)
        + tagged('s', status_text(t.status))
}

/// The field separator inside a record.
pub open spec fn field_sep() -> Seq<char> {
    seq!['|']
}

/// Reads one token of a record into the task read so far; `None` once an id
/// token fails to parse.
pub open spec fn apply_token(acc: Option<TaskView>, tok: Seq<char>) -> Option<TaskView> {
    match acc {
        None => None,
        Some(t) => if tok.len() >= 1 && tok[0] == '@' {
            match parse_unsigned(tok.skip(1), MAX_ID as nat) {
                Some(n) => Some(TaskView { id: n, ..t }),
                None => None,
            }
        } else if tok.len() >= 2 && tok[1] == ':' && tok[0] == 'd' {
            Some(TaskView { date: Some(tok.skip(2)), ..t })
        } else if tok.len() >= 2 && tok[1] == ':' && tok[0] == 't' {
            Some(TaskView { time: Some(tok.skip(2)), ..t })
        } else if tok.len() >= 2 && tok[1] == ':' && tok[0] == 's' {
            Some(TaskView { status: Some(tok.skip(2)), ..t })
        } else if tok.len() >= 2 && tok[1] == ':' && tok[0] == 'n' {
            Some(TaskView { name: tok.skip(2), ..t })
        } else {
            Some(t)
        },
    }
}

/// Reads a sequence of tokens, left to right, from a blank task.
pub open spec fn decode_tokens(toks: Seq<Seq<char>>) -> Option<TaskView>
    decreases toks.len(),
{
    if toks.len() == 0 {
        Some(blank_task())
    } else {
        apply_token(decode_tokens(toks.drop_last()), toks.last())
    }
}

/// The task a record holds, or `None` when its id is malformed.
pub open spec fn decode_task(line: Seq<char>) -> Option<TaskView> {
    decode_tokens(pieces(line, field_sep()))
}

/// Appends the token `tag:value` to `out`.
fn push_tagged(out: &mut String, tag: &str, value: &str)
    requires
        tag@.len() == 1,
    ensures
        final(out)@ == old(out)@ + tagged(tag@[0], value@),
{
    out.append(tag);
    out.append(":");
    proof {
        reveal_strlit(":");
    }
    out.append(value);
    assert(final(out)@ =~= old(out)@ + tagged(tag@[0], value@));
}

/// Appends an optional field token and its separator to `out`.
fn push_optional(out: &mut String, tag: &str, value: &Option<String>)
    requires
        tag@.len() == 1,
    ensures
        final(out)@ == old(out)@ + optional_field(tag@[0], opt_view(*value)),
{
    match value {
        Some(v) => {
            push_tagged(out, tag, v.as_str());
            out.append("|");
            proof {
                reveal_strlit("|");
            }
            assert(final(out)@ =~= old(out)@ + optional_field(tag@[0], opt_view(*value)));
        },
        None => {
            assert(old(out)@ + optional_field(tag@[0], opt_view(*value)) =~= old(out)@);
        },
    }
}

/// The record of a task.
pub fn task_to_string(task: &Task) -> (r: String)
    ensures
        r@ == encode_task(task@),
{
    proof {
        reveal_strlit("@");
        reveal_strlit("|");
        reveal_strlit("n");
        reveal_strlit("d");
        reveal_strlit("t");
        reveal_strlit("s");
        reveal_strlit("TODO");
    }
    let mut line = String::new();
    line.append("@");
    push_decimal(&mut line, task.id as usize);
    line.append("|");
    push_tagged(&mut line, "n", task.name.as_str());
    line.append("|");
    push_optional(&mut line, "d", &task.date);
    push_optional(&mut line, "t", &task.time);
    match &task.status {
        Some(v) => push_tagged(&mut line, "s", v.as_str()),
        None => push_tagged(&mut line, "s", "TODO"),
    }
    assert(line@ =~= encode_task(task@));
    line
}

/// Once a prefix of the tokens fails, the whole sequence fails.
proof fn lemma_decode_tokens_stays_failed(toks: Seq<Seq<char>>, j: int)
    requires
        0 <= j <= toks.len(),
        decode_tokens(toks.take(j)) is None,
    ensures
        decode_tokens(toks) is None,
    decreases toks.len() - j,
{
    if j < toks.len() {
        assert(toks.take(j + 1).drop_last() =~= toks.take(j));
        lemma_decode_tokens_stays_failed(toks, j + 1);
    } else {
        assert(toks.take(j) =~= toks);
    }
}

/// An owned copy of the characters of `line` from `lo` up to `hi`.
fn field_text(line: &str, lo: usize, hi: usize) -> (r: String)
    requires
        lo <= hi <= line@.len(),
    ensures
        r@ == line@.subrange(lo as int, hi as int),
{
    String::from_str(line.substring_char(lo, hi))
}

/// The task a record holds; fails with `MalformedId` when its id token is not
/// an unsigned 16-bit number.
pub fn string_to_task(line: &str) -> (r: Result<Task, TaskerError>)
    ensures
        r is Ok <==> decode_task(line@) is Some,
        r matches Ok(t) ==> decode_task(line@) == Some(t@),
        r matches Err(e) ==> e == TaskerError::MalformedId,
{
    let chars = chars_of(line);
    let sep = vec!['|'];
    assert(sep@ =~= field_sep());
    let spans = split_spans(&chars, &sep);
    let ghost toks = spans_text(chars@, spans@);
    let mut task = Task { id: 0, name: String::new(), time: None, date: None, status: None };
    assert(toks.take(0) =~= Seq::<Seq<char>>::empty());
    let mut k: usize = 0;
    while k < spans.len()
        invariant
            k <= spans.len(),
            chars@ == line@,
            toks == spans_text(chars@, spans@),
            toks == pieces(line@, field_sep()),
            forall|j: int| 0 <= j < spans.len() ==> (#[trigger] spans@[j]).0 <= spans@[j].1 && spans@[j].1 <= chars.len(),
            decode_tokens(toks.take(k as int)) == Some(task@),
        decreases spans.len() - k,
    {
        let (a, b) = spans[k];
        let ghost tok = chars@.subrange(a as int, b as int);
        assert(toks[k as int] == tok);
        assert(toks.take(k + 1).drop_last() =~= toks.take(k as int));
        assert(toks.take(k + 1).last() == tok);
        if b - a >= 1 && chars[a] == '@' {
            let digits = sub_chars(&chars, a + 1, b);
            assert(digits@ =~= tok.skip(1));
            match read_unsigned(&digits, 65535) {
                Some(v) => {
                    task.id = v as u16;
                },
                None => {
                    proof {
                        lemma_decode_tokens_stays_failed(toks, k + 1);
                    }
                    return Err(TaskerError::MalformedId);
                },
            }
        } else if b - a >= 2 && chars[a + 1] == ':' {
            let c = chars[a];
            if c == 'd' {
                let v = field_text(line, a + 2, b);
                assert(v@ =~= tok.skip(2));
                task.date = Some(v);
            } else if c == 't' {
                let v = field_text(line, a + 2, b);
                assert(v@ =~= tok.skip(2));
                task.time = Some(v);
            } else if c == 's' {
                let v = field_text(line, a + 2, b);
                assert(v@ =~= tok.skip(2));
                task.status = Some(v);
            } else if c == 'n' {
                let v = field_text(line, a + 2, b);
                assert(v@ =~= tok.skip(2));
                task.name = v;
            }
        }
        k = k + 1;
    }
    assert(toks.take(k as int) =~= toks);
    Ok(task)
}

/// Whether no text field of a task holds `c`.
pub open spec fn fields_free_of(t: TaskView, c: char) -> bool {
    &&& free_of(t.name, c)
    &&& (t.date matches Some(v) ==> free_of(v, c))
    &&& (t.time matches Some(v) ==> free_of(v, c))
    &&& (t.status matches Some(v) ==> free_of(v, c))
}

/// Whether every text field of a task is free of the field separator.
pub open spec fn fields_free_of_separator(t: TaskView) -> bool {
    fields_free_of(t, '|')
}

/// A task as its record reads back: the status it is written with is set.
pub open spec fn stored(t: TaskView) -> TaskView {
    TaskView { status: Some(status_text(t.status)), ..t }
}

proof fn lemma_decode_push(toks: Seq<Seq<char>>, tok: Seq<char>)
    ensures
        decode_tokens(toks.push(tok)) == apply_token(decode_tokens(toks), tok),
{
    assert(toks.push(tok).drop_last() =~= toks);
}

proof fn lemma_tagged_free(tag: char, v: Seq<char>)
    requires
        free_of(v, '|'),
        tag != '|',
    ensures
        free_of(tagged(tag, v), '|'),
        tagged(tag, v).len() >= 2,
        tagged(tag, v)[0] == tag,
        tagged(tag, v)[1] == ':',
        tagged(tag, v).skip(2) == v,
{
    let t = tagged(tag, v);
    assert forall|i: int| 0 <= i < t.len() implies #[trigger] t[i] != '|' by {
        if i >= 2 {
            assert(t[i] == v[i - 2]);
        }
    }
    assert(t.skip(2) =~= v);
}

/// The pieces of an optional field followed by the rest of a record.
proof fn lemma_optional_pieces(tag: char, v: Option<Seq<char>>, rest: Seq<char>)
    requires
        tag != '|',
        v matches Some(x) ==> free_of(x, '|'),
    ensures
        pieces(optional_field(tag, v) + rest, seq!['|']) == (match v {
            Some(x) => seq![tagged(tag, x)] + pieces(rest, seq!['|']),
            None => pieces(rest, seq!['|']),
        }),
{
    match v {
        Some(x) => {
            lemma_tagged_free(tag, x);
            assert(optional_field(tag, v) + rest =~= tagged(tag, x) + seq!['|'] + rest);
            lemma_pieces_field(tagged(tag, x), rest, seq!['|']);
        },
        None => {
            assert(optional_field(tag, v) + rest =~= rest);
        },
    }
}

/// Decoding the record of a task gives the task back, when its id fits, its
/// status is set and no field holds the field separator.
pub proof fn lemma_round_trip(t: TaskView)
    requires
        t.id <= MAX_ID as nat,
        t.status is Some,
        fields_free_of_separator(t),
    ensures
        decode_task(encode_task(t)) == Some(t),
{
    let st = t.status->0;
    let id_tok = seq!['@'] + decimal(t.id);
    let name_tok = tagged('n', t.name);
    let st_tok = tagged('s', st);
    lemma_decimal_reads_back(t.id);
    lemma_tagged_free('n', t.name);
    lemma_tagged_free('s', st);
    assert(free_of(id_tok, '|')) by {
        assert forall|i: int| 0 <= i < id_tok.len() implies #[trigger] id_tok[i] != '|' by {
            if i >= 1 {
                assert(id_tok[i] == decimal(t.id)[i - 1]);
            }
        }
    }
    let rest4 = st_tok;
    let rest3 = optional_field('t', t.time) + rest4;
    let rest2 = optional_field('d', t.date) + rest3;
    let rest1 = name_tok + seq!['|'] + rest2;
    assert(encode_task(t) =~= id_tok + seq!['|'] + rest1);
    lemma_pieces_last(rest4, '|');
    lemma_optional_pieces('t', t.time, rest4);
    lemma_optional_pieces('d', t.date, rest3);
    lemma_pieces_field(name_tok, rest2, seq!['|']);
    lemma_pieces_field(id_tok, rest1, seq!['|']);
    let l0 = Seq::<Seq<char>>::empty();
    let l1 = l0.push(id_tok);
    let l2 = l1.push(name_tok);
    let l3 = match t.date {
        Some(x) => l2.push(tagged('d', x)),
        None => l2,
    };
    let l4 = match t.time {
        Some(x) => l3.push(tagged('t', x)),
        None => l3,
    };
    let l5 = l4.push(st_tok);
    let p = pieces(encode_task(t), field_sep());
    assert(field_sep() =~= seq!['|']);
    assert(p =~= l5);
    // the id token
    assert(id_tok.skip(1) =~= decimal(t.id));
    lemma_decode_push(l0, id_tok);
    let t1 = TaskView { id: t.id, ..blank_task() };
    assert(decode_tokens(l1) == Some(t1));
    // the name token
    lemma_decode_push(l1, name_tok);
    let t2 = TaskView { name: t.name, ..t1 };
    assert(decode_tokens(l2) == Some(t2));
    // the optional date token
    let t3 = TaskView { date: t.date, ..t2 };
    if let Some(x) = t.date {
        lemma_tagged_free('d', x);
        lemma_decode_push(l2, tagged('d', x));
    }
    assert(decode_tokens(l3) == Some(t3));
    let t4 = TaskView { time: t.time, ..t3 };
    if let Some(x) = t.time {
        lemma_tagged_free('t', x);
        lemma_decode_push(l3, tagged('t', x));
    }
    assert(decode_tokens(l4) == Some(t4));
    lemma_decode_push(l4, st_tok);
    assert(decode_tokens(l5) == Some(t));
}

/// Decoding the record of any task gives it back with its status set, when its
/// id fits and no field holds the field separator.
pub proof fn lemma_round_trip_stored(t: TaskView)
    requires
        t.id <= MAX_ID as nat,
        fields_free_of_separator(t),
    ensures
        decode_task(encode_task(t)) == Some(stored(t)),
{
    let s = stored(t);
    assert(encode_task(t) == encode_task(s));
    assert(free_of(status_text(t.status), '|')) by {
        if t.status is None {
            let d = default_status();
            assert forall|i: int| 0 <= i < d.len() implies #[trigger] d[i] != '|' by {}
        }
    }
    lemma_round_trip(s);
}

/// The record of a task whose fields are free of `;` holds no `;`, and is not empty.
pub proof fn lemma_record_free_of_semicolon(t: TaskView)
    requires
        fields_free_of(t, ';'),
    ensures
        free_of(encode_task(t), ';'),
        encode_task(t).len() > 1,
{
    lemma_decimal_reads_back(t.id);
    let e = encode_task(t);
    let dec = decimal(t.id);
    assert(free_of(dec, ';')) by {
        assert forall|i: int| 0 <= i < dec.len() implies #[trigger] dec[i] != ';' by {
            assert(is_digit(dec[i]));
        }
    }
    assert(free_of(status_text(t.status), ';')) by {
        if t.status is None {
            let d = default_status();
            assert forall|i: int| 0 <= i < d.len() implies #[trigger] d[i] != ';' by {}
        }
    }
    assert(forall|tag: char, v: Seq<char>| tag != ';' && free_of(v, ';') ==> free_of(
        #[trigger] tagged(tag, v),
        ';',
    )) by {
        assert forall|tag: char, v: Seq<char>| tag != ';' && free_of(v, ';') implies free_of(
            #[trigger] tagged(tag, v),
            ';',
        ) by {
            let w = tagged(tag, v);
            assert forall|i: int| 0 <= i < w.len() implies #[trigger] w[i] != ';' by {
                if i >= 2 {
                    assert(w[i] == v[i - 2]);
                }
            }
        }
    }
    assert(forall|tag: char, v: Option<Seq<char>>| tag != ';' && (v matches Some(x) ==> free_of(x, ';')) ==> free_of(
        #[trigger] optional_field(tag, v),
        ';',
    )) by {
        assert forall|tag: char, v: Option<Seq<char>>| tag != ';' && (v matches Some(x) ==> free_of(x, ';')) implies free_of(
            #[trigger] optional_field(tag, v),
            ';',
        ) by {
            if let Some(x) = v {
                let w = optional_field(tag, v);
                let u = tagged(tag, x);
                assert(free_of(u, ';'));
                assert forall|i: int| 0 <= i < w.len() implies #[trigger] w[i] != ';' by {
                    if i < u.len() {
                        assert(w[i] == u[i]);
                    }
                }
            }
        }
    }
    assert(free_of(optional_field('d', t.date), ';'));
    assert(free_of(optional_field('t', t.time), ';'));
    assert(free_of(tagged('n', t.name), ';'));
    assert(free_of(tagged('s', status_text(t.status)), ';'));
    lemma_concat_free(seq!['@'], dec, ';');
    lemma_concat_free(seq!['@'] + dec, seq!['|'], ';');
    lemma_concat_free(seq!['@'] + dec + seq!['|'], tagged('n', t.name), ';');
    lemma_concat_free(seq!['@'] + dec + seq!['|'] + tagged('n', t.name), seq!['|'], ';');
    lemma_concat_free(
        seq!['@'] + dec + seq!['|'] + tagged('n', t.name) + seq!['|'],
        optional_field('d', t.date),
        ';',
    );
    lemma_concat_free(
        seq!['@'] + dec + seq!['|'] + tagged('n', t.name) + seq!['|'] + optional_field('d', t.date),
        optional_field('t', t.time),
        ';',
    );
    lemma_concat_free(
        seq!['@'] + dec + seq!['|'] + tagged('n', t.name) + seq!['|'] + optional_field('d', t.date)
            + optional_field('t', t.time),
        tagged('s', status_text(t.status)),
        ';',
    );
}

proof fn lemma_concat_free(a: Seq<char>, b: Seq<char>, c: char)
    requires
        free_of(a, c),
        free_of(b, c),
    ensures
        free_of(a + b, c),
{
    assert forall|i: int| 0 <= i < (a + b).len() implies #[trigger] (a + b)[i] != c by {
        if i < a.len() {
            assert((a + b)[i] == a[i]);
        } else {
            assert((a + b)[i] == b[i - a.len()]);
        }
    }
}

} // verus!
