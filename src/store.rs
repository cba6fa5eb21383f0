//! The task list held in a store file: records separated by `;;`, and the
//! list operations together with what they do to the column widths.

use vstd::prelude::*;
use vstd::string::*;
use crate::error::TaskerError;
use crate::meta::{
    covers, fits, max, task_fits, merge, meta_vs_meta_to_meta, no_wider, pair_widths, task_vs_task_to_meta,
    widen, Meta, MetaView,
};
use crate::task::{
    decode_task, fields_free_of, lemma_record_free_of_semicolon, lemma_round_trip_stored, opt_view,
    stored, MAX_ID, encode_task, string_to_task, task_to_string, Task, TaskView};
use crate::text::{chars_of, lemma_pieces_field, pieces, spans_text, split_spans};

verus! {

/// The separator that ends each record in a store file.
pub open spec fn record_sep() -> Seq<char> {
    seq![';', ';']
}

/// The values of a list of tasks.
pub open spec fn models(v: Seq<Task>) -> Seq<TaskView> {
    v.map_values(|t: Task| t@)
}

/// The tasks a list of records holds, or `None` when one is malformed; a
/// piece of one character or less is no record and is skipped.
pub open spec fn decode_records(rs: Seq<Seq<char>>) -> Option<Seq<TaskView>>
    decreases rs.len(),
{
    if rs.len() == 0 {
        Some(Seq::empty())
    } else if rs.last().len() <= 1 {
        decode_records(rs.drop_last())
    } else {
        match (decode_records(rs.drop_last()), decode_task(rs.last())) {
            (Some(ts), Some(t)) => Some(ts.push(t)),
            _ => None,
        }
    }
}

/// The tasks a store file holds, in order, or `None` when a record is malformed.
pub open spec fn decode_store(content: Seq<char>) -> Option<Seq<TaskView>> {
    decode_records(pieces(content, record_sep()))
}

/// The store file that holds exactly `ts`, in order.
pub open spec fn encode_store(ts: Seq<TaskView>) -> Seq<char>
    decreases ts.len(),
{
    if ts.len() == 0 {
        Seq::empty()
    } else {
        encode_store(ts.drop_last()) + encode_task(ts.last()) + record_sep()
    }
}

/// The largest id in a list, 0 for an empty list.
pub open spec fn max_id(ts: Seq<TaskView>) -> nat
    decreases ts.len(),
{
    if ts.len() == 0 {
        0
    } else {
        max(max_id(ts.drop_last()), ts.last().id)
    }
}

/// What `set` supplies: a name that replaces the old one only when it is not
/// empty, and a status, date and time that replace the old ones as they are.
pub struct Patch {
    pub name: Seq<char>,
    pub time: Option<Seq<char>>,
    pub date: Option<Seq<char>>,
    pub status: Option<Seq<char>>,
}

/// A task after a patch.
pub open spec fn patched(t: TaskView, p: Patch) -> TaskView {
    TaskView {
        id: t.id,
        name: if p.name.len() > 0 {
            p.name
        } else {
            t.name
        },
        time: p.time,
        date: p.date,
        status: p.status,
    }
}

/// The list with every task whose id is `id` patched.
pub open spec fn set_tasks(ts: Seq<TaskView>, id: nat, p: Patch) -> Seq<TaskView> {
    ts.map_values(|t: TaskView| if t.id == id { patched(t, p) } else { t })
}

/// The widths after patching every task whose id is `id`: each such task
/// merges in the widths of its value before and after the patch.
pub open spec fn set_meta(m: MetaView, ts: Seq<TaskView>, id: nat, p: Patch) -> MetaView
    decreases ts.len(),
{
    if ts.len() == 0 {
        m
    } else {
        let m0 = set_meta(m, ts.drop_last(), id, p);
        if ts.last().id == id {
            merge(m0, pair_widths(ts.last(), patched(ts.last(), p)))
        } else {
            m0
        }
    }
}

/// The list without the tasks whose id is `id`, in the same order.
pub open spec fn without_id(ts: Seq<TaskView>, id: nat) -> Seq<TaskView>
    decreases ts.len(),
{
    if ts.len() == 0 {
        Seq::empty()
    } else if ts.last().id == id {
        without_id(ts.drop_last(), id)
    } else {
        without_id(ts.drop_last(), id).push(ts.last())
    }
}

/// Whether some task of the list has id `id`.
pub open spec fn has_id(ts: Seq<TaskView>, id: nat) -> bool {
    exists|i: int| 0 <= i < ts.len() && (#[trigger] ts[i]).id == id
}

/// Adding a task keeps the widths fitting every task, and no width shrinks.
pub proof fn lemma_add_keeps_widths(m: MetaView, ts: Seq<TaskView>, t: TaskView)
    requires
        covers(m, ts),
    ensures
        covers(widen(m, t), ts.push(t)),
        no_wider(m, widen(m, t)),
{
    let m2 = widen(m, t);
    assert forall|i: int| 0 <= i < ts.push(t).len() implies no_wider(
        #[trigger] widen(m2, ts.push(t)[i]),
        m2,
    ) by {
        if i < ts.len() {
            assert(ts.push(t)[i] == ts[i]);
            assert(no_wider(widen(m, ts[i]), m));
        }
    }
}

/// Patching tasks keeps the widths fitting every task, and no width shrinks.
pub proof fn lemma_set_keeps_widths(m: MetaView, ts: Seq<TaskView>, id: nat, p: Patch)
    requires
        covers(m, ts),
    ensures
        covers(set_meta(m, ts, id, p), set_tasks(ts, id, p)),
        no_wider(m, set_meta(m, ts, id, p)),
{
    lemma_set_meta_grows(m, ts, id, p);
    let m2 = set_meta(m, ts, id, p);
    let ts2 = set_tasks(ts, id, p);
    assert forall|i: int| 0 <= i < ts2.len() implies no_wider(#[trigger] widen(m2, ts2[i]), m2) by {
        assert(no_wider(widen(m, ts[i]), m));
        if ts[i].id == id {
            lemma_set_meta_fits(m, ts, id, p, i);
        }
    }
}

/// Patching only widens.
proof fn lemma_set_meta_grows(m: MetaView, ts: Seq<TaskView>, id: nat, p: Patch)
    ensures
        no_wider(m, set_meta(m, ts, id, p)),
    decreases ts.len(),
{
    if ts.len() > 0 {
        lemma_set_meta_grows(m, ts.drop_last(), id, p);
        lemma_set_meta_monotone(m, ts, id, p, ts.len() - 1);
    }
}

/// Later patches only widen what earlier ones gave.
proof fn lemma_set_meta_monotone(m: MetaView, ts: Seq<TaskView>, id: nat, p: Patch, k: int)
    requires
        0 <= k <= ts.len(),
    ensures
        no_wider(set_meta(m, ts.take(k), id, p), set_meta(m, ts, id, p)),
    decreases ts.len() - k,
{
    if k < ts.len() {
        lemma_set_meta_monotone(m, ts, id, p, k + 1);
        assert(ts.take(k + 1).drop_last() =~= ts.take(k));
    } else {
        assert(ts.take(k) =~= ts);
    }
}

/// The widths after patching fit each patched task.
proof fn lemma_set_meta_fits(m: MetaView, ts: Seq<TaskView>, id: nat, p: Patch, i: int)
    requires
        0 <= i < ts.len(),
        ts[i].id == id,
    ensures
        no_wider(widen(set_meta(m, ts, id, p), patched(ts[i], p)), set_meta(m, ts, id, p)),
{
    lemma_set_meta_monotone(m, ts, id, p, i + 1);
    let t = ts.take(i + 1);
    assert(t.drop_last() =~= ts.take(i));
    assert(t.last() == ts[i]);
}

/// Patching an id that no task carries changes neither the list nor the widths.
pub proof fn lemma_set_unmatched(m: MetaView, ts: Seq<TaskView>, id: nat, p: Patch)
    requires
        !has_id(ts, id),
    ensures
        set_tasks(ts, id, p) == ts,
        set_meta(m, ts, id, p) == m,
    decreases ts.len(),
{
    assert(set_tasks(ts, id, p) =~= ts) by {
        assert forall|i: int| 0 <= i < ts.len() implies set_tasks(ts, id, p)[i] == ts[i] by {
            assert(ts[i].id != id);
        }
    }
    if ts.len() > 0 {
        let d = ts.drop_last();
        assert(!has_id(d, id)) by {
            if has_id(d, id) {
                let j = choose|j: int| 0 <= j < d.len() && (#[trigger] d[j]).id == id;
                assert(ts[j] == d[j]);
            }
        }
        assert(ts[ts.len() - 1].id != id);
        lemma_set_unmatched(m, d, id, p);
    }
}

proof fn lemma_decode_records_stays_failed(rs: Seq<Seq<char>>, j: int)
    requires
        0 <= j <= rs.len(),
        decode_records(rs.take(j)) is None,
    ensures
        decode_records(rs) is None,
    decreases rs.len() - j,
{
    if j < rs.len() {
        assert(rs.take(j + 1).drop_last() =~= rs.take(j));
        lemma_decode_records_stays_failed(rs, j + 1);
    } else {
        assert(rs.take(j) =~= rs);
    }
}

/// The tasks a store file holds, in order; fails with `MalformedId` when a
/// record's id is malformed.
pub fn get_task_list(content: &str) -> (r: Result<Vec<Task>, TaskerError>)
    ensures
        r is Ok <==> decode_store(content@) is Some,
        r matches Ok(v) ==> decode_store(content@) == Some(models(v@)),
        r matches Err(e) ==> e == TaskerError::MalformedId,
{
    let chars = chars_of(content);
    let sep = vec![';', ';'];
    assert(sep@ =~= record_sep());
    let spans = split_spans(&chars, &sep);
    let ghost rs = spans_text(chars@, spans@);
    let mut out: Vec<Task> = Vec::new();
    assert(rs.take(0) =~= Seq::<Seq<char>>::empty());
    assert(models(out@) =~= Seq::<TaskView>::empty());
    let mut k: usize = 0;
    while k < spans.len()
        invariant
            k <= spans.len(),
            chars@ == content@,
            rs == spans_text(chars@, spans@),
            rs == pieces(content@, record_sep()),
            forall|j: int| 0 <= j < spans.len() ==> (#[trigger] spans@[j]).0 <= spans@[j].1 && spans@[j].1 <= chars.len(),
            decode_records(rs.take(k as int)) == Some(models(out@)),
        decreases spans.len() - k,
    {
        let (a, b) = spans[k];
        assert(rs[k as int] == chars@.subrange(a as int, b as int));
        assert(rs.take(k + 1).drop_last() =~= rs.take(k as int));
        assert(rs.take(k + 1).last() == rs[k as int]);
        if b - a > 1 {
            let line = content.substring_char(a, b);
            match string_to_task(line) {
                Ok(t) => {
                    let ghost before = out@;
                    out.push(t);
                    assert(models(out@) =~= models(before).push(t@));
                },
                Err(e) => {
                    proof {
                        lemma_decode_records_stays_failed(rs, k + 1);
                    }
                    return Err(e);
                },
            }
        }
        k = k + 1;
    }
    assert(rs.take(k as int) =~= rs);
    Ok(out)
}

/// The store file that holds exactly `tasks`, in order.
pub fn tasks_to_string(tasks: &Vec<Task>) -> (r: String)
    ensures
        r@ == encode_store(models(tasks@)),
{
    let mut content = String::new();
    let mut k: usize = 0;
    proof {
        reveal_strlit(";;");
    }
    assert(models(tasks@).take(0) =~= Seq::<TaskView>::empty());
    while k < tasks.len()
        invariant
            k <= tasks.len(),
            content@ == encode_store(models(tasks@).take(k as int)),
        decreases tasks.len() - k,
    {
        let line = task_to_string(&tasks[k]);
        content.append(line.as_str());
        content.append(";;");
        let ghost ms = models(tasks@);
        assert(ms.take(k + 1).drop_last() =~= ms.take(k as int));
        assert(ms.take(k + 1).last() == tasks@[k as int]@);
        proof {
            reveal_strlit(";;");
        }
        assert(record_sep() =~= ";;"@);
        k = k + 1;
    }
    assert(models(tasks@).take(k as int) =~= models(tasks@));
    content
}

/// The largest id of a list, 0 for an empty list.
pub fn last_id(tasks: &Vec<Task>) -> (r: u16)
    ensures
        r as nat == max_id(models(tasks@)),
{
    let mut best: u16 = 0;
    let mut k: usize = 0;
    assert(models(tasks@).take(0) =~= Seq::<TaskView>::empty());
    while k < tasks.len()
        invariant
            k <= tasks.len(),
            best as nat == max_id(models(tasks@).take(k as int)),
        decreases tasks.len() - k,
    {
        let ghost ms = models(tasks@);
        assert(ms.take(k + 1).drop_last() =~= ms.take(k as int));
        if tasks[k].id > best {
            best = tasks[k].id;
        }
        k = k + 1;
    }
    assert(models(tasks@).take(k as int) =~= models(tasks@));
    best
}

/// An owned copy of an optional text.
pub fn copy_opt(o: &Option<String>) -> (r: Option<String>)
    ensures
        opt_view(r) == opt_view(*o),
{
    match o {
        Some(v) => Some(v.clone()),
        None => None,
    }
}

/// An owned copy of a task.
pub fn copy_task(t: &Task) -> (r: Task)
    ensures
        r@ == t@,
{
    Task {
        id: t.id,
        name: t.name.clone(),
        time: copy_opt(&t.time),
        date: copy_opt(&t.date),
        status: copy_opt(&t.status),
    }
}

/// The patch that `set` applies, from the values it was given.
pub open spec fn patch_of(
    name: Option<String>,
    time: Option<String>,
    date: Option<String>,
    status: Option<String>,
) -> Patch {
    Patch {
        name: match name {
            Some(n) => n@,
            None => Seq::empty(),
        },
        time: opt_view(time),
        date: opt_view(date),
        status: opt_view(status),
    }
}

/// Patches every task whose id is `id`, growing the widths to fit each such
/// task before and after the patch.
pub fn set_in_list(
    tasks: &mut Vec<Task>,
    meta: &mut Meta,
    id: u16,
    name: &Option<String>,
    time: &Option<String>,
    date: &Option<String>,
    status: &Option<String>,
)
    ensures
        models(final(tasks)@) == set_tasks(
            models(old(tasks)@),
            id as nat,
            patch_of(*name, *time, *date, *status),
        ),
        final(meta)@ == set_meta(
            old(meta)@,
            models(old(tasks)@),
            id as nat,
            patch_of(*name, *time, *date, *status),
        ),
{
    let ghost p = patch_of(*name, *time, *date, *status);
    let ghost orig = models(tasks@);
    let ghost m0 = meta@;
    let mut k: usize = 0;
    assert(orig.take(0) =~= Seq::<TaskView>::empty());
    while k < tasks.len()
        invariant
            k <= tasks.len(),
            tasks.len() == orig.len(),
            p == patch_of(*name, *time, *date, *status),
            forall|j: int| 0 <= j < k ==> (#[trigger] tasks@[j])@ == set_tasks(orig, id as nat, p)[j],
            forall|j: int| k <= j < tasks.len() ==> (#[trigger] tasks@[j])@ == orig[j],
            meta@ == set_meta(m0, orig.take(k as int), id as nat, p),
        decreases tasks.len() - k,
    {
        assert(orig.take(k + 1).drop_last() =~= orig.take(k as int));
        assert(orig.take(k + 1).last() == orig[k as int]);
        if tasks[k].id == id {
            let new_name = match name {
                Some(n) => if n.as_str().unicode_len() > 0 {
                    n.clone()
                } else {
                    tasks[k].name.clone()
                },
                None => tasks[k].name.clone(),
            };
            let updated = Task {
                id: tasks[k].id,
                name: new_name,
                time: copy_opt(time),
                date: copy_opt(date),
                status: copy_opt(status),
            };
            assert(updated@ == patched(orig[k as int], p));
            let widths = task_vs_task_to_meta(&tasks[k], &updated);
            meta_vs_meta_to_meta(meta, &widths);
            tasks.set(k, updated);
        }
        k = k + 1;
    }
    assert(orig.take(k as int) =~= orig);
    assert(models(tasks@) =~= set_tasks(orig, id as nat, p));
}

/// The tasks whose id is not `id`, in the same order.
pub fn remove_from_list(tasks: &Vec<Task>, id: u16) -> (r: Vec<Task>)
    ensures
        models(r@) == without_id(models(tasks@), id as nat),
{
    let ghost orig = models(tasks@);
    let mut out: Vec<Task> = Vec::new();
    let mut k: usize = 0;
    assert(orig.take(0) =~= Seq::<TaskView>::empty());
    assert(models(out@) =~= Seq::<TaskView>::empty());
    while k < tasks.len()
        invariant
            k <= tasks.len(),
            orig == models(tasks@),
            models(out@) == without_id(orig.take(k as int), id as nat),
        decreases tasks.len() - k,
    {
        assert(orig.take(k + 1).drop_last() =~= orig.take(k as int));
        assert(orig.take(k + 1).last() == tasks@[k as int]@);
        if tasks[k].id != id {
            let ghost before = out@;
            out.push(copy_task(&tasks[k]));
            assert(models(out@) =~= models(before).push(tasks@[k as int]@));
        }
        k = k + 1;
    }
    assert(orig.take(k as int) =~= orig);
    out
}

/// Whether every task can be written and read back: its id fits and no field
/// holds a separator character.
pub open spec fn store_ready(ts: Seq<TaskView>) -> bool {
    forall|i: int|
        0 <= i < ts.len() ==> {
            &&& (#[trigger] ts[i]).id <= MAX_ID as nat
            &&& fields_free_of(ts[i], '|')
            &&& fields_free_of(ts[i], ';')
        }
}

/// The tasks as they read back from the store.
pub open spec fn stored_all(ts: Seq<TaskView>) -> Seq<TaskView> {
    ts.map_values(|t: TaskView| stored(t))
}

proof fn lemma_encode_store_cons(t: TaskView, ts: Seq<TaskView>)
    ensures
        encode_store(seq![t] + ts) == encode_task(t) + record_sep() + encode_store(ts),
    decreases ts.len(),
{
    if ts.len() == 0 {
        assert(seq![t] + ts =~= seq![t]);
        assert(seq![t].drop_last() =~= Seq::<TaskView>::empty());
        assert(encode_store(Seq::<TaskView>::empty()) + encode_task(t) + record_sep() =~= encode_task(
            t,
        ) + record_sep() + encode_store(ts));
    } else {
        assert((seq![t] + ts).drop_last() =~= seq![t] + ts.drop_last());
        assert((seq![t] + ts).last() == ts.last());
        lemma_encode_store_cons(t, ts.drop_last());
        assert(encode_store(seq![t] + ts) =~= encode_task(t) + record_sep() + encode_store(ts));
    }
}

proof fn lemma_store_pieces(ts: Seq<TaskView>)
    requires
        store_ready(ts),
    ensures
        pieces(encode_store(ts), record_sep()) == ts.map_values(|t: TaskView| encode_task(t)),
    decreases ts.len(),
{
    if ts.len() == 0 {
        assert(pieces(encode_store(ts), record_sep()) =~= Seq::<Seq<char>>::empty());
        assert(ts.map_values(|t: TaskView| encode_task(t)) =~= Seq::<Seq<char>>::empty());
    } else {
        let rest = ts.skip(1);
        assert(ts =~= seq![ts[0]] + rest);
        assert(store_ready(rest)) by {
            assert forall|i: int| 0 <= i < rest.len() implies #[trigger] rest[i] == ts[i + 1] by {}
        }
        lemma_store_pieces(rest);
        lemma_encode_store_cons(ts[0], rest);
        lemma_record_free_of_semicolon(ts[0]);
        lemma_pieces_field(encode_task(ts[0]), encode_store(rest), record_sep());
        assert(ts.map_values(|t: TaskView| encode_task(t)) =~= seq![encode_task(ts[0])]
            + rest.map_values(|t: TaskView| encode_task(t)));
    }
}

proof fn lemma_decode_encoded_records(ts: Seq<TaskView>)
    requires
        store_ready(ts),
    ensures
        decode_records(ts.map_values(|t: TaskView| encode_task(t))) == Some(stored_all(ts)),
    decreases ts.len(),
{
    let rs = ts.map_values(|t: TaskView| encode_task(t));
    if ts.len() == 0 {
        assert(stored_all(ts) =~= Seq::<TaskView>::empty());
    } else {
        let d = ts.drop_last();
        assert(store_ready(d)) by {
            assert forall|i: int| 0 <= i < d.len() implies #[trigger] d[i] == ts[i] by {}
        }
        lemma_decode_encoded_records(d);
        assert(rs.drop_last() =~= d.map_values(|t: TaskView| encode_task(t)));
        assert(ts[ts.len() - 1] == ts.last());
        lemma_round_trip_stored(ts.last());
        assert(stored_all(ts) =~= stored_all(d).push(stored(ts.last())));
    }
}

/// A store written from tasks that can be written reads back as those tasks,
/// each with its status set.
pub proof fn lemma_store_round_trip(ts: Seq<TaskView>)
    requires
        store_ready(ts),
    ensures
        decode_store(encode_store(ts)) == Some(stored_all(ts)),
{
    lemma_store_pieces(ts);
    lemma_decode_encoded_records(ts);
}

/// Setting the status keeps every id, so the largest id too.
pub proof fn lemma_stored_max_id(ts: Seq<TaskView>)
    ensures
        max_id(stored_all(ts)) == max_id(ts),
    decreases ts.len(),
{
    if ts.len() > 0 {
        assert(stored_all(ts).drop_last() =~= stored_all(ts.drop_last()));
        lemma_stored_max_id(ts.drop_last());
    }
}

/// The task a patch would make of a blank task: the values it supplies.
pub open spec fn patch_task(p: Patch) -> TaskView {
    TaskView { id: 0, name: p.name, time: p.time, date: p.date, status: p.status }
}

/// Setting the status of tasks that can be written keeps them writable.
pub proof fn lemma_stored_ready(ts: Seq<TaskView>)
    requires
        store_ready(ts),
    ensures
        store_ready(stored_all(ts)),
{
    let st = stored_all(ts);
    assert forall|i: int| 0 <= i < st.len() implies #[trigger] st[i].id <= MAX_ID as nat
        && fields_free_of(st[i], '|') && fields_free_of(st[i], ';') by {
        assert(st[i] == stored(ts[i]));
        if ts[i].status is None {
            let d = crate::task::default_status();
            assert(crate::text::free_of(d, '|'));
            assert(crate::text::free_of(d, ';'));
        }
    }
}

/// Widths that fit the tasks fit them with their status set too.
pub proof fn lemma_covers_stored(m: MetaView, ts: Seq<TaskView>)
    requires
        covers(m, ts),
    ensures
        covers(m, stored_all(ts)),
{
    let st = stored_all(ts);
    assert forall|i: int| 0 <= i < st.len() implies no_wider(#[trigger] widen(m, st[i]), m) by {
        assert(st[i] == stored(ts[i]));
        assert(no_wider(widen(m, ts[i]), m));
    }
}

/// Patching writable tasks with values free of the separators keeps them writable.
pub proof fn lemma_set_tasks_ready(ts: Seq<TaskView>, id: nat, p: Patch)
    requires
        store_ready(ts),
        fields_free_of(patch_task(p), '|'),
        fields_free_of(patch_task(p), ';'),
    ensures
        store_ready(set_tasks(ts, id, p)),
{
    let s2 = set_tasks(ts, id, p);
    assert forall|i: int| 0 <= i < s2.len() implies #[trigger] s2[i].id <= MAX_ID as nat
        && fields_free_of(s2[i], '|') && fields_free_of(s2[i], ';') by {
        assert(store_ready(ts) ==> ts[i].id <= MAX_ID as nat && fields_free_of(ts[i], '|')
            && fields_free_of(ts[i], ';'));
    }
}

/// Patching with values short enough to measure keeps covered widths fitting
/// a machine word.
pub proof fn lemma_set_meta_fits_word(m: MetaView, ts: Seq<TaskView>, id: nat, p: Patch)
    requires
        fits(m),
        covers(m, ts),
        task_fits(patch_task(p)),
    ensures
        fits(set_meta(m, ts, id, p)),
    decreases ts.len(),
{
    if ts.len() > 0 {
        let d = ts.drop_last();
        assert(covers(m, d)) by {
            assert forall|i: int| 0 <= i < d.len() implies no_wider(#[trigger] widen(m, d[i]), m) by {
                assert(d[i] == ts[i]);
            }
        }
        lemma_set_meta_fits_word(m, d, id, p);
        assert(no_wider(widen(m, ts[ts.len() - 1]), m));
    }
}

} // verus!
