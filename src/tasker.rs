//! The four commands of the tracker, each one read-modify-write cycle over the
//! store file and the width file, given their contents and handing back what
//! to write and print.

use vstd::prelude::*;
use vstd::string::*;
use crate::error::TaskerError;
use crate::meta::{
    covers, decode_meta, encode_meta, fits, initial, lemma_decoded_widths_fit, lemma_meta_round_trip,
    lemma_widen_fits, no_wider, task_fits, meta_to_string, string_to_meta, task_to_meta, widen, Meta,
    MetaView,
};
use crate::store::{
    copy_opt, decode_store, encode_store, has_id, lemma_add_keeps_widths, lemma_covers_stored,
    lemma_set_keeps_widths, lemma_set_meta_fits_word, lemma_set_tasks_ready, lemma_set_unmatched,
    lemma_stored_ready, patch_task, lemma_stored_max_id, lemma_store_round_trip, store_ready,
    stored_all, get_task_list, last_id, max_id, patch_of, record_sep,
    remove_from_list, set_in_list, set_meta, set_tasks, tasks_to_string, without_id,
};
use crate::table::{header, render_table, row};
use crate::task::{encode_task, fields_free_of, opt_view, stored, task_to_string, Task, TaskView, MAX_ID};
use crate::text::{chars_of, parse_unsigned, read_unsigned};

verus! {

/// The values a command was given.
pub struct Options {
    pub name: Option<String>,
    pub time: Option<String>,
    pub date: Option<String>,
    pub status: Option<String>,
    pub id: Option<String>,
    pub all: bool,
}

/// What a command leaves behind: the new contents of the store file and of
/// the width file, each only when it is to be written, and the lines to print.
pub struct Outcome {
    pub store: Option<String>,
    pub meta: Option<String>,
    pub lines: Vec<String>,
}

/// The value of an outcome.
pub struct OutcomeView {
    pub store: Option<Seq<char>>,
    pub meta: Option<Seq<char>>,
    pub lines: Seq<Seq<char>>,
}

impl View for Outcome {
    type V = OutcomeView;

    open spec fn view(&self) -> OutcomeView {
        OutcomeView {
            store: opt_view(self.store),
            meta: opt_view(self.meta),
            lines: self.lines@.map_values(|s: String| s@),
        }
    }
}

/// The value of a command's result.
pub open spec fn result_view(r: Result<Outcome, TaskerError>) -> Result<OutcomeView, TaskerError> {
    match r {
        Ok(o) => Ok(o@),
        Err(e) => Err(e),
    }
}

/// The tracker: the command to run, its options, and where its two files live.
pub struct Tasker {
    pub command: String,
    pub options: Options,
    pub path: String,
    pub meta_path: String,
}

/// Whether a non-empty name was given.
pub open spec fn name_given(o: Options) -> bool {
    o.name matches Some(n) && n@.len() > 0
}

/// The id option read as a number, if it is one.
pub open spec fn parsed_id(s: String) -> Option<nat> {
    parse_unsigned(s@, MAX_ID as nat)
}

/// The widths `add` starts from: the header widths for an empty store, else
/// those of the width record.
pub open spec fn base_meta(content: Seq<char>, meta_text: Seq<char>) -> Option<MetaView> {
    if content.len() == 0 {
        Some(initial())
    } else {
        decode_meta(meta_text)
    }
}

/// The task `add` creates in a store holding `ts`.
pub open spec fn added_task(o: Options, ts: Seq<TaskView>) -> TaskView {
    TaskView {
        id: max_id(ts) + 1,
        name: o.name->0@,
        time: opt_view(o.time),
        date: opt_view(o.date),
        status: opt_view(o.status),
    }
}

/// An outcome that writes the given files and prints nothing.
pub open spec fn writes(store: Option<Seq<char>>, meta: Option<Seq<char>>) -> OutcomeView {
    OutcomeView { store, meta, lines: Seq::empty() }
}

/// What `add` does: it appends the record of a new task whose id is one more
/// than the largest, and grows the widths to fit it.
pub open spec fn add_result(o: Options, content: Seq<char>, meta_text: Seq<char>) -> Result<
    OutcomeView,
    TaskerError,
> {
    if !name_given(o) {
        Err(TaskerError::MissingName)
    } else {
        match decode_store(content) {
            None => Err(TaskerError::MalformedId),
            Some(ts) => match base_meta(content, meta_text) {
                None => Err(TaskerError::MalformedMetadata),
                Some(m) => if max_id(ts) >= MAX_ID as nat {
                    Err(TaskerError::IdExhausted)
                } else {
                    let t = added_task(o, ts);
                    Ok(
                        writes(
                            Some(content + encode_task(t) + record_sep()),
                            Some(encode_meta(widen(m, t))),
                        ),
                    )
                },
            },
        }
    }
}

/// What `set` does: it patches the tasks with the given id, rewrites every
/// record in order, and merges in the widths each patched task needs before
/// and after.
pub open spec fn set_result(o: Options, content: Seq<char>, meta_text: Seq<char>) -> Result<
    OutcomeView,
    TaskerError,
> {
    match o.id {
        None => Err(TaskerError::MissingId),
        Some(s) => match parsed_id(s) {
            None => Err(TaskerError::MalformedId),
            Some(id) => match decode_meta(meta_text) {
                None => Err(TaskerError::MalformedMetadata),
                Some(m) => match decode_store(content) {
                    None => Err(TaskerError::MalformedId),
                    Some(ts) => {
                        let p = patch_of(o.name, o.time, o.date, o.status);
                        Ok(
                            writes(
                                Some(encode_store(set_tasks(ts, id, p))),
                                Some(encode_meta(set_meta(m, ts, id, p))),
                            ),
                        )
                    },
                },
            },
        },
    }
}

/// The line printed for an empty store.
pub open spec fn no_tasks_line() -> Seq<char> {
    "No task added"@
}

/// The lines of the table: the header, then one row per task.
pub open spec fn table_lines(ts: Seq<TaskView>, m: MetaView) -> Seq<Seq<char>> {
    seq![header(m)] + ts.map_values(|t: TaskView| row(t, m))
}

/// What `list` does: it writes nothing and prints the table, or a notice for
/// an empty store.
pub open spec fn list_result(content: Seq<char>, meta_text: Seq<char>) -> Result<
    OutcomeView,
    TaskerError,
> {
    if content.len() == 0 {
        Ok(OutcomeView { store: None, meta: None, lines: seq![no_tasks_line()] })
    } else {
        match decode_meta(meta_text) {
            None => Err(TaskerError::MalformedMetadata),
            Some(m) => match decode_store(content) {
                None => Err(TaskerError::MalformedId),
                Some(ts) => Ok(OutcomeView { store: None, meta: None, lines: table_lines(ts, m) }),
            },
        }
    }
}

/// What `clear` does: with `all` it empties the store and resets the widths;
/// else it rewrites the store without the tasks of the given id and leaves
/// the widths alone.
pub open spec fn clear_result(o: Options, content: Seq<char>) -> Result<OutcomeView, TaskerError> {
    if o.all {
        Ok(writes(Some(Seq::empty()), Some(encode_meta(initial()))))
    } else {
        match o.id {
            None => Err(TaskerError::MissingId),
            Some(s) => match parsed_id(s) {
                None => Err(TaskerError::MalformedId),
                Some(id) => match decode_store(content) {
                    None => Err(TaskerError::MalformedId),
                    Some(ts) => Ok(writes(Some(encode_store(without_id(ts, id))), None)),
                },
            },
        }
    }
}

/// What `run` does: the command named by the tracker, or `UnknownCommand`.
pub open spec fn run_result(t: Tasker, content: Seq<char>, meta_text: Seq<char>) -> Result<
    OutcomeView,
    TaskerError,
> {
    if t.command@ == "add"@ {
        add_result(t.options, content, meta_text)
    } else if t.command@ == "set"@ {
        set_result(t.options, content, meta_text)
    } else if t.command@ == "list"@ {
        list_result(content, meta_text)
    } else if t.command@ == "clear"@ {
        clear_result(t.options, content)
    } else {
        Err(TaskerError::UnknownCommand)
    }
}

/// An add on a store written from `ts` gives the new task the id one more than
/// the largest one there (1 on an empty store), and writes back a store that
/// reads as the earlier tasks followed by the new one, whose id is then the
/// largest: the next add takes the id after it.
pub proof fn lemma_add_ids(o: Options, ts: Seq<TaskView>, meta_text: Seq<char>)
    requires
        store_ready(ts),
        fields_free_of(added_task(o, ts), '|'),
        fields_free_of(added_task(o, ts), ';'),
        add_result(o, encode_store(ts), meta_text) is Ok,
    ensures
        added_task(o, ts).id == max_id(ts) + 1,
        ts.len() == 0 ==> added_task(o, ts).id == 1,
        add_result(o, encode_store(ts), meta_text)->Ok_0.store == Some(
            encode_store(ts.push(added_task(o, ts))),
        ),
        decode_store(encode_store(ts.push(added_task(o, ts)))) == Some(
            stored_all(ts.push(added_task(o, ts))),
        ),
        max_id(stored_all(ts.push(added_task(o, ts)))) == added_task(o, ts).id,
{
    let t = added_task(o, ts);
    lemma_store_round_trip(ts);
    lemma_stored_max_id(ts);
    assert(added_task(o, stored_all(ts)) == t);
    assert(ts.push(t).drop_last() =~= ts);
    let ts2 = ts.push(t);
    assert(store_ready(ts2)) by {
        assert forall|i: int| 0 <= i < ts2.len() implies #[trigger] ts2[i] == (if i < ts.len() {
            ts[i]
        } else {
            t
        }) by {}
    }
    lemma_store_round_trip(ts2);
    lemma_stored_max_id(ts2);
}

/// `clear` with `all` succeeds on any store, and leaves a store that reads as
/// no tasks and a width record that reads as the header widths.
pub proof fn lemma_clear_all(o: Options, content: Seq<char>)
    requires
        o.all,
    ensures
        clear_result(o, content) is Ok,
        clear_result(o, content)->Ok_0.store == Some(Seq::<char>::empty()),
        decode_store(Seq::<char>::empty()) == Some(Seq::<TaskView>::empty()),
        clear_result(o, content)->Ok_0.meta == Some(encode_meta(initial())),
        decode_meta(encode_meta(initial())) == Some(initial()),
{
    lemma_meta_round_trip(initial());
    assert(crate::text::pieces(Seq::<char>::empty(), record_sep()) =~= Seq::<Seq<char>>::empty());
}

/// `set` with an id that no task of the store carries writes back a store that
/// reads as the same tasks, and the same widths.
pub proof fn lemma_set_unknown_id(o: Options, ts: Seq<TaskView>, m: MetaView)
    requires
        store_ready(ts),
        m.id <= usize::MAX && m.name <= usize::MAX && m.time <= usize::MAX && m.date
            <= usize::MAX && m.status <= usize::MAX,
        o.id is Some,
        parsed_id(o.id->0) is Some,
        !has_id(ts, parsed_id(o.id->0)->0),
    ensures
        set_result(o, encode_store(ts), encode_meta(m)) is Ok,
        set_result(o, encode_store(ts), encode_meta(m))->Ok_0.meta == Some(encode_meta(m)),
        set_result(o, encode_store(ts), encode_meta(m))->Ok_0.store matches Some(x)
            && decode_store(x) == decode_store(encode_store(ts)),
{
    let id = parsed_id(o.id->0)->0;
    let p = patch_of(o.name, o.time, o.date, o.status);
    let st = stored_all(ts);
    lemma_store_round_trip(ts);
    lemma_meta_round_trip(m);
    assert(!has_id(st, id)) by {
        if has_id(st, id) {
            let j = choose|j: int| 0 <= j < st.len() && (#[trigger] st[j]).id == id;
            assert(st[j].id == ts[j].id);
        }
    }
    lemma_set_unmatched(m, st, id, p);
    assert(store_ready(st)) by {
        assert forall|i: int| 0 <= i < st.len() implies #[trigger] st[i] == stored(ts[i]) by {}
        assert forall|i: int| 0 <= i < st.len() implies fields_free_of(#[trigger] st[i], '|')
            && fields_free_of(st[i], ';') by {
            assert(st[i] == stored(ts[i]));
            if ts[i].status is None {
                let d = crate::task::default_status();
                assert(crate::text::free_of(d, '|'));
                assert(crate::text::free_of(d, ';'));
            }
        }
    }
    lemma_store_round_trip(st);
    assert(stored_all(st) =~= st);
}

/// An add on a store written from `ts`, whose width record (for a store that
/// is not empty) fits every task, leaves a width file that reads back as
/// widths fitting the header labels and every task of the store read back,
/// none of them narrower than before.
pub proof fn lemma_add_widths_on_files(o: Options, ts: Seq<TaskView>, meta_text: Seq<char>)
    requires
        store_ready(ts),
        fields_free_of(added_task(o, ts), '|'),
        fields_free_of(added_task(o, ts), ';'),
        task_fits(added_task(o, ts)),
        add_result(o, encode_store(ts), meta_text) is Ok,
        ts.len() > 0 ==> decode_meta(meta_text) is Some && covers(
            decode_meta(meta_text)->0,
            stored_all(ts),
        ),
    ensures
        ({
            let out = add_result(o, encode_store(ts), meta_text)->Ok_0;
            &&& out.store is Some
            &&& out.meta is Some
            &&& decode_store(out.store->0) == Some(stored_all(ts.push(added_task(o, ts))))
            &&& decode_meta(out.meta->0) is Some
            &&& covers(decode_meta(out.meta->0)->0, decode_store(out.store->0)->0)
            &&& (ts.len() > 0 ==> no_wider(decode_meta(meta_text)->0, decode_meta(out.meta->0)->0))
        }),
{
    let content = encode_store(ts);
    let t = added_task(o, ts);
    lemma_add_ids(o, ts, meta_text);
    lemma_store_round_trip(ts);
    lemma_stored_max_id(ts);
    assert(added_task(o, stored_all(ts)) == t);
    let st = stored_all(ts);
    if ts.len() > 0 {
        assert(content.len() > 0);
        lemma_decoded_widths_fit(crate::text::pieces(meta_text, seq![',']));
    } else {
        assert(content.len() == 0);
        assert(st.len() == 0);
    }
    let base = base_meta(content, meta_text)->0;
    assert(fits(base));
    assert(covers(base, st));
    lemma_widen_fits(base, t);
    lemma_meta_round_trip(widen(base, t));
    lemma_add_keeps_widths(base, st, stored(t));
    assert(widen(base, stored(t)) == widen(base, t));
    assert(stored_all(ts.push(t)) =~= st.push(stored(t)));
}

/// A `set` on a store written from `ts`, whose width record fits every task,
/// with values free of the separators, leaves a width file that reads back as
/// widths fitting every task of the store read back, none of them narrower
/// than before; this holds whether or not a task carries the id.
pub proof fn lemma_set_widths_on_files(o: Options, ts: Seq<TaskView>, meta_text: Seq<char>)
    requires
        store_ready(ts),
        decode_meta(meta_text) is Some,
        covers(decode_meta(meta_text)->0, stored_all(ts)),
        o.id is Some,
        parsed_id(o.id->0) is Some,
        fields_free_of(patch_task(patch_of(o.name, o.time, o.date, o.status)), '|'),
        fields_free_of(patch_task(patch_of(o.name, o.time, o.date, o.status)), ';'),
        task_fits(patch_task(patch_of(o.name, o.time, o.date, o.status))),
    ensures
        set_result(o, encode_store(ts), meta_text) is Ok,
        ({
            let out = set_result(o, encode_store(ts), meta_text)->Ok_0;
            &&& out.store is Some
            &&& out.meta is Some
            &&& decode_store(out.store->0) is Some
            &&& decode_meta(out.meta->0) is Some
            &&& covers(decode_meta(out.meta->0)->0, decode_store(out.store->0)->0)
            &&& no_wider(decode_meta(meta_text)->0, decode_meta(out.meta->0)->0)
        }),
{
    let id = parsed_id(o.id->0)->0;
    let p = patch_of(o.name, o.time, o.date, o.status);
    let m0 = decode_meta(meta_text)->0;
    let st = stored_all(ts);
    lemma_store_round_trip(ts);
    lemma_stored_ready(ts);
    let s2 = set_tasks(st, id, p);
    lemma_set_tasks_ready(st, id, p);
    lemma_store_round_trip(s2);
    let m1 = set_meta(m0, st, id, p);
    lemma_set_keeps_widths(m0, st, id, p);
    lemma_covers_stored(m1, s2);
    lemma_decoded_widths_fit(crate::text::pieces(meta_text, seq![',']));
    lemma_set_meta_fits_word(m0, st, id, p);
    lemma_meta_round_trip(m1);
}

/// Reads the id option as a number.
fn parse_id(s: &String) -> (r: Option<u16>)
    ensures
        r matches Some(v) ==> parsed_id(*s) == Some(v as nat),
        r is None ==> parsed_id(*s) is None,
{
    let chars = chars_of(s.as_str());
    match read_unsigned(&chars, 65535) {
        Some(v) => Some(v as u16),
        None => None,
    }
}

impl Tasker {
    /// A tracker whose files live in the directory `base`.
    pub fn new(base: &str) -> (r: Tasker)
        ensures
            r.path@ == base@ + "\\main.tks"@,
            r.meta_path@ == base@ + "\\meta.tkconf"@,
            r.command@.len() == 0,
            r.options.name is None && r.options.time is None && r.options.date is None
                && r.options.status is None && r.options.id is None && !r.options.all,
    {
        let mut path = String::from_str(base);
        path.append("\\main.tks");
        let mut meta_path = String::from_str(base);
        meta_path.append("\\meta.tkconf");
        Tasker {
            command: String::new(),
            options: Options { name: None, time: None, date: None, status: None, id: None, all: false },
            path,
            meta_path,
        }
    }

    /// Takes the command and the options it was given.
    pub fn setup(&mut self, command: String, options: Options)
        ensures
            final(self).command == command,
            final(self).options == options,
            final(self).path == old(self).path,
            final(self).meta_path == old(self).meta_path,
    {
        self.command = command;
        self.options = options;
    }

    /// Runs the command the tracker was set up with.
    pub fn run(&self, content: &str, meta_text: &str) -> (r: Result<Outcome, TaskerError>)
        ensures
            result_view(r) == run_result(*self, content@, meta_text@),
    {
        if self.command == String::from_str("add") {
            self.add(content, meta_text)
        } else if self.command == String::from_str("set") {
            self.set(content, meta_text)
        } else if self.command == String::from_str("list") {
            self.list(content, meta_text)
        } else if self.command == String::from_str("clear") {
            self.clear(content)
        } else {
            Err(TaskerError::UnknownCommand)
        }
    }

    /// Adds a task; `content` and `meta_text` are the store and width files.
    pub fn add(&self, content: &str, meta_text: &str) -> (r: Result<Outcome, TaskerError>)
        ensures
            result_view(r) == add_result(self.options, content@, meta_text@),
    {
        let name = match &self.options.name {
            Some(n) => n,
            None => {
                return Err(TaskerError::MissingName);
            },
        };
        if name.as_str().unicode_len() == 0 {
            return Err(TaskerError::MissingName);
        }
        let tasks = match get_task_list(content) {
            Ok(v) => v,
            Err(e) => {
                return Err(e);
            },
        };
        let mut meta = if content.unicode_len() == 0 {
            Meta::new()
        } else {
            match string_to_meta(meta_text) {
                Ok(m) => m,
                Err(e) => {
                    return Err(e);
                },
            }
        };
        let last = last_id(&tasks);
        if last >= MAX_ID {
            return Err(TaskerError::IdExhausted);
        }
        let task = Task {
            id: last + 1,
            name: name.clone(),
            time: copy_opt(&self.options.time),
            date: copy_opt(&self.options.date),
            status: copy_opt(&self.options.status),
        };
        let line = task_to_string(&task);
        let mut store = String::from_str(content);
        store.append(line.as_str());
        store.append(";;");
        proof {
            reveal_strlit(";;");
        }
        assert(";;"@ =~= record_sep());
        task_to_meta(&task, &mut meta);
        let out = Outcome { store: Some(store), meta: Some(meta_to_string(&meta)), lines: Vec::new() };
        assert(out@.lines =~= Seq::<Seq<char>>::empty());
        Ok(out)
    }

    /// Updates the tasks of the given id; a missing id changes nothing.
    pub fn set(&self, content: &str, meta_text: &str) -> (r: Result<Outcome, TaskerError>)
        ensures
            result_view(r) == set_result(self.options, content@, meta_text@),
    {
        let id = match &self.options.id {
            Some(s) => match parse_id(s) {
                Some(v) => v,
                None => {
                    return Err(TaskerError::MalformedId);
                },
            },
            None => {
                return Err(TaskerError::MissingId);
            },
        };
        let mut meta = match string_to_meta(meta_text) {
            Ok(m) => m,
            Err(e) => {
                return Err(e);
            },
        };
        let mut tasks = match get_task_list(content) {
            Ok(v) => v,
            Err(e) => {
                return Err(e);
            },
        };
        set_in_list(
            &mut tasks,
            &mut meta,
            id,
            &self.options.name,
            &self.options.time,
            &self.options.date,
            &self.options.status,
        );
        let out = Outcome {
            store: Some(tasks_to_string(&tasks)),
            meta: Some(meta_to_string(&meta)),
            lines: Vec::new(),
        };
        assert(out@.lines =~= Seq::<Seq<char>>::empty());
        Ok(out)
    }

    /// The lines that show the store as a table.
    pub fn list(&self, content: &str, meta_text: &str) -> (r: Result<Outcome, TaskerError>)
        ensures
            result_view(r) == list_result(content@, meta_text@),
    {
        if content.unicode_len() == 0 {
            let mut lines: Vec<String> = Vec::new();
            lines.push(String::from_str("No task added"));
            let out = Outcome { store: None, meta: None, lines };
            assert(out@.lines =~= seq![no_tasks_line()]);
            return Ok(out);
        }
        let meta = match string_to_meta(meta_text) {
            Ok(m) => m,
            Err(e) => {
                return Err(e);
            },
        };
        let tasks = match get_task_list(content) {
            Ok(v) => v,
            Err(e) => {
                return Err(e);
            },
        };
        let lines = render_table(&tasks, &meta);
        let out = Outcome { store: None, meta: None, lines };
        let ghost want = table_lines(crate::store::models(tasks@), meta@);
        assert forall|i: int| 0 <= i < want.len() implies #[trigger] out@.lines[i] == want[i] by {
            if i > 0 {
                assert(out@.lines[(i - 1) + 1] == row(tasks@[i - 1]@, meta@));
            }
        }
        assert(out@.lines =~= want);
        Ok(out)
    }

    /// Removes the tasks of the given id, or every task with `all`.
    pub fn clear(&self, content: &str) -> (r: Result<Outcome, TaskerError>)
        ensures
            result_view(r) == clear_result(self.options, content@),
    {
        if self.options.all {
            let out = Outcome {
                store: Some(String::new()),
                meta: Some(meta_to_string(&Meta::new())),
                lines: Vec::new(),
            };
            assert(out@.lines =~= Seq::<Seq<char>>::empty());
            return Ok(out);
        }
        let id = match &self.options.id {
            Some(s) => match parse_id(s) {
                Some(v) => v,
                None => {
                    return Err(TaskerError::MalformedId);
                },
            },
            None => {
                return Err(TaskerError::MissingId);
            },
        };
        let tasks = match get_task_list(content) {
            Ok(v) => v,
            Err(e) => {
                return Err(e);
            },
        };
        let kept = remove_from_list(&tasks, id);
        let out = Outcome { store: Some(tasks_to_string(&kept)), meta: None, lines: Vec::new() };
        assert(out@.lines =~= Seq::<Seq<char>>::empty());
        Ok(out)
    }
}

} // verus!
