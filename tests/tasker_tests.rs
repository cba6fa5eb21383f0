use tasker::error::{TaskerError, TaskerRunError};
use tasker::meta::{meta_to_string, string_to_meta, Meta};
use tasker::store::get_task_list;
use tasker::task::{string_to_task, task_to_string, Task};
use tasker::tasker::{Options, Outcome, Tasker};

fn opts() -> Options {
    Options { name: None, time: None, date: None, status: None, id: None, all: false }
}

fn some(s: &str) -> Option<String> {
    Some(s.to_string())
}

fn run(command: &str, options: Options, content: &str, meta: &str) -> Result<Outcome, TaskerError> {
    let mut t = Tasker::new("space");
    t.setup(command.to_string(), options);
    t.run(content, meta)
}

#[test]
fn new_places_files_under_base() {
    let t = Tasker::new("space");
    assert_eq!(t.path, "space\\main.tks");
    assert_eq!(t.meta_path, "space\\meta.tkconf");
}

#[test]
fn meta_new_has_header_widths() {
    let m = Meta::new();
    assert_eq!((m.id, m.name, m.time, m.date, m.status), (2, 4, 4, 4, 6));
    assert_eq!(meta_to_string(&m), "i:2,n:4,d:4,t:4,s:6");
}

#[test]
fn add_first_task() {
    let out = run("add", Options { name: some("Write spec"), ..opts() }, "", "").unwrap();
    assert_eq!(out.store.unwrap(), "@1|n:Write spec|s:TODO;;");
    assert_eq!(out.meta.unwrap(), "i:2,n:10,d:4,t:4,s:6");
    assert!(out.lines.is_empty());
}

#[test]
fn add_two_tasks_in_order() {
    let first = run("add", Options { name: some("A"), ..opts() }, "", "").unwrap();
    let store = first.store.unwrap();
    let meta = first.meta.unwrap();
    let second = run("add", Options { name: some("B"), ..opts() }, &store, &meta).unwrap();
    let store = second.store.unwrap();
    assert_eq!(store, "@1|n:A|s:TODO;;@2|n:B|s:TODO;;");
    let tasks = get_task_list(&store).unwrap();
    assert_eq!(tasks.len(), 2);
    assert_eq!((tasks[0].id, tasks[0].name.as_str()), (1, "A"));
    assert_eq!((tasks[1].id, tasks[1].name.as_str()), (2, "B"));
}

#[test]
fn add_takes_one_more_than_largest_id() {
    let store = "@1|n:A|s:TODO;;@5|n:B|s:TODO;;@3|n:C|s:TODO;;";
    let out =
        run("add", Options { name: some("D"), ..opts() }, store, "i:2,n:4,d:4,t:4,s:6").unwrap();
    assert_eq!(out.store.unwrap(), format!("{}@6|n:D|s:TODO;;", store));
}

#[test]
fn add_with_all_fields() {
    let o = Options {
        name: some("Call"),
        time: some("10am"),
        date: some("2024-05-01"),
        status: some("WIP"),
        ..opts()
    };
    let out = run("add", o, "", "").unwrap();
    assert_eq!(out.store.unwrap(), "@1|n:Call|d:2024-05-01|t:10am|s:WIP;;");
    assert_eq!(out.meta.unwrap(), "i:2,n:4,d:10,t:4,s:6");
}

#[test]
fn add_without_name_fails() {
    assert_eq!(run("add", opts(), "", "").err(), Some(TaskerError::MissingName));
    let o = Options { name: some(""), ..opts() };
    assert_eq!(run("add", o, "@1|n:A|s:TODO;;", "").err(), Some(TaskerError::MissingName));
}

#[test]
fn add_after_largest_id_fails() {
    let o = Options { name: some("A"), ..opts() };
    let r = run("add", o, "@65535|n:A|s:TODO;;", "i:5,n:4,d:4,t:4,s:6");
    assert_eq!(r.err(), Some(TaskerError::IdExhausted));
}

#[test]
fn add_on_malformed_store_fails() {
    let o = Options { name: some("A"), ..opts() };
    let r = run("add", o, "@x|n:A|s:TODO;;", "i:2,n:4,d:4,t:4,s:6");
    assert_eq!(r.err(), Some(TaskerError::MalformedId));
}

#[test]
fn set_overwrites_status_and_clears_date_time() {
    let store = "@1|n:A|d:2024|t:10am|s:TODO;;";
    let o = Options { id: some("1"), status: some("DONE"), ..opts() };
    let out = run("set", o, store, "i:2,n:4,d:4,t:4,s:6").unwrap();
    assert_eq!(out.store.unwrap(), "@1|n:A|s:DONE;;");
    assert_eq!(out.meta.unwrap(), "i:2,n:4,d:4,t:4,s:6");
}

#[test]
fn set_keeps_widths_when_values_shrink() {
    let store = "@1|n:A very long name|s:TODO;;";
    let meta = "i:2,n:16,d:4,t:4,s:6";
    let o = Options { id: some("1"), name: some("B"), status: some("a rather long status"), ..opts() };
    let out = run("set", o, store, meta).unwrap();
    assert_eq!(out.store.unwrap(), "@1|n:B|s:a rather long status;;");
    assert_eq!(out.meta.unwrap(), "i:2,n:16,d:4,t:4,s:20");
}

#[test]
fn set_on_unknown_id_changes_nothing() {
    let store = "@1|n:A|s:TODO;;@2|n:B|s:DONE;;";
    let meta = "i:2,n:4,d:4,t:4,s:6";
    let o = Options { id: some("9"), name: some("Z"), ..opts() };
    let out = run("set", o, store, meta).unwrap();
    assert_eq!(out.store.unwrap(), store);
    assert_eq!(out.meta.unwrap(), meta);
}

#[test]
fn set_without_id_fails() {
    let o = Options { status: some("DONE"), ..opts() };
    assert_eq!(run("set", o, "@1|n:A|s:TODO;;", "").err(), Some(TaskerError::MissingId));
}

#[test]
fn set_with_malformed_widths_fails() {
    let o = Options { id: some("1"), ..opts() };
    let r = run("set", o, "@1|n:A|s:TODO;;", "i:2,q:4");
    assert_eq!(r.err(), Some(TaskerError::MalformedMetadata));
}

#[test]
fn set_with_malformed_id_option_fails() {
    let o = Options { id: some("one"), ..opts() };
    let r = run("set", o, "@1|n:A|s:TODO;;", "");
    assert_eq!(r.err(), Some(TaskerError::MalformedId));
}

#[test]
fn clear_one_keeps_the_others_in_order() {
    let store = "@1|n:A|s:TODO;;@2|n:B|s:TODO;;@3|n:C|s:TODO;;";
    let o = Options { id: some("2"), ..opts() };
    let out = run("clear", o, store, "i:2,n:4,d:4,t:4,s:6").unwrap();
    assert_eq!(out.store.unwrap(), "@1|n:A|s:TODO;;@3|n:C|s:TODO;;");
    assert!(out.meta.is_none());
}

#[test]
fn clear_all_resets_everything() {
    let store = "@1|n:A long name|s:TODO;;";
    let o = Options { all: true, ..opts() };
    let out = run("clear", o, store, "i:2,n:11,d:4,t:4,s:6").unwrap();
    assert_eq!(out.store.unwrap(), "");
    assert_eq!(out.meta.unwrap(), "i:2,n:4,d:4,t:4,s:6");
}

#[test]
fn clear_without_id_fails() {
    assert_eq!(run("clear", opts(), "@1|n:A|s:TODO;;", "").err(), Some(TaskerError::MissingId));
}

#[test]
fn list_on_empty_store() {
    let out = run("list", opts(), "", "").unwrap();
    assert_eq!(out.lines, vec!["No task added".to_string()]);
    assert!(out.store.is_none());
    assert!(out.meta.is_none());
}

#[test]
fn list_renders_centred_table() {
    let out = run("list", opts(), "@1|n:A|s:TODO;;", "i:2,n:4,d:4,t:4,s:6").unwrap();
    assert_eq!(out.lines, vec!["|id|name|date|time|status|".to_string(), "|1 | A  |    |    | TODO |".to_string()]);
    assert!(out.store.is_none());
}

#[test]
fn unknown_command_fails() {
    assert_eq!(run("remove", opts(), "", "").err(), Some(TaskerError::UnknownCommand));
    assert_eq!(
        TaskerRunError {}.message(),
        "Error while running the Tasker - Unknown command provided!!"
    );
}

#[test]
fn record_round_trip() {
    let t = Task {
        id: 42,
        name: "Write spec".to_string(),
        time: some("9:30"),
        date: None,
        status: some("DONE"),
    };
    let line = task_to_string(&t);
    assert_eq!(line, "@42|n:Write spec|t:9:30|s:DONE");
    let back = string_to_task(&line).unwrap();
    assert_eq!(back.id, 42);
    assert_eq!(back.name, "Write spec");
    assert_eq!(back.time, some("9:30"));
    assert_eq!(back.date, None);
    assert_eq!(back.status, some("DONE"));
}

#[test]
fn record_decoding_is_tolerant() {
    let t = string_to_task("x:1|@+7|n:A|zz|n:B").unwrap();
    assert_eq!((t.id, t.name.as_str()), (7, "B"));
    assert_eq!(t.status, None);
    assert_eq!(string_to_task("@70000|n:A").err(), Some(TaskerError::MalformedId));
    assert_eq!(string_to_task("@|n:A").err(), Some(TaskerError::MalformedId));
}

#[test]
fn width_record_decoding() {
    let m = string_to_meta("i:3,n:12,d:4,t:5,s:6").unwrap();
    assert_eq!((m.id, m.name, m.date, m.time, m.status), (3, 12, 4, 5, 6));
    let m = string_to_meta("").unwrap();
    assert_eq!((m.id, m.name, m.date, m.time, m.status), (2, 4, 4, 4, 6));
    assert_eq!(string_to_meta("i:3,x:1").err(), Some(TaskerError::MalformedMetadata));
    assert_eq!(string_to_meta("i:3,n:abc").err(), Some(TaskerError::MalformedMetadata));
}

#[test]
fn successive_adds_number_tasks_in_turn() {
    let mut store = String::new();
    let mut meta = String::new();
    for (i, name) in ["a", "b", "c"].iter().enumerate() {
        let out = run("add", Options { name: some(name), ..opts() }, &store, &meta).unwrap();
        store = out.store.unwrap();
        meta = out.meta.unwrap();
        let tasks = get_task_list(&store).unwrap();
        assert_eq!(tasks.len(), i + 1);
        assert_eq!(tasks[i].id as usize, i + 1);
    }
    assert_eq!(store, "@1|n:a|s:TODO;;@2|n:b|s:TODO;;@3|n:c|s:TODO;;");
}

#[test]
fn widths_never_shrink_over_add_and_set() {
    let o = Options { name: some("A fairly long task"), date: some("2024-12-31"), ..opts() };
    let first = run("add", o, "", "").unwrap();
    let store = first.store.unwrap();
    let meta = first.meta.unwrap();
    assert_eq!(meta, "i:2,n:18,d:10,t:4,s:6");
    let o = Options { id: some("1"), name: some("Short"), ..opts() };
    let second = run("set", o, &store, &meta).unwrap();
    assert_eq!(second.store.unwrap(), "@1|n:Short|s:TODO;;");
    assert_eq!(second.meta.unwrap(), "i:2,n:18,d:10,t:4,s:6");
}

#[test]
fn list_widens_cells_to_stored_widths() {
    let out = run("list", opts(), "@12|n:Buy milk|t:9am|s:DONE;;", "i:2,n:8,d:4,t:4,s:6").unwrap();
    assert_eq!(
        out.lines,
        vec!["|id|  name  |date|time|status|".to_string(), "|12|Buy milk|    |9am | DONE |".to_string()]
    );
}

#[test]
fn one_character_pieces_are_no_records() {
    let tasks = get_task_list("@1|n:A|s:TODO;;x;;").unwrap();
    assert_eq!(tasks.len(), 1);
    assert_eq!((tasks[0].id, tasks[0].name.as_str()), (1, "A"));
    assert_eq!(get_task_list("x;;").unwrap().len(), 0);
    assert_eq!(get_task_list("@1|n:A|s:TODO;;\n").unwrap().len(), 1);
}

#[test]
fn stray_character_is_dropped_on_rewrite() {
    let store = "@1|n:A|s:TODO;;x;;@2|n:B|s:TODO;;";
    let o = Options { id: some("2"), ..opts() };
    let out = run("clear", o, store, "i:2,n:4,d:4,t:4,s:6").unwrap();
    assert_eq!(out.store.unwrap(), "@1|n:A|s:TODO;;");
    let out = run("list", opts(), store, "i:2,n:4,d:4,t:4,s:6").unwrap();
    assert_eq!(out.lines.len(), 3);
}
