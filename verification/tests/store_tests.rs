use todo_store::codec::StorageError;
use todo_store::dispatch::{dispatch, parse_action, required_args, Action, ArgumentError, Outcome};
use todo_store::render::{banner, help_commands, max_row_width, title_rule_len};
use todo_store::store::TaskStore;
use todo_store::task::Todo;

fn store_with(entries: &[(&str, &str)]) -> (TaskStore, Vec<String>) {
    let mut store = TaskStore::load_from(None).unwrap();
    let mut ids = Vec::new();
    for (title, body) in entries {
        let t = store.create(title.to_string(), body.to_string()).unwrap();
        ids.push(t.id);
    }
    (store, ids)
}

#[test]
fn bootstrap_from_nothing_is_empty_and_persistable() {
    let store = TaskStore::load_from(None).unwrap();
    assert_eq!(store.count(), 0);
    let text = store.save();
    assert_eq!(text, "[]");
    let again = TaskStore::load_from(Some(&text)).unwrap();
    assert_eq!(again.count(), 0);
}

#[test]
fn save_then_load_round_trips() {
    let (store, ids) = store_with(&[("first", "one"), ("second \"q\"", "two\nlines"), ("third", "")]);
    let text = store.save();
    let loaded = TaskStore::load_from(Some(&text)).unwrap();
    let a = store.list();
    let b = loaded.list();
    assert_eq!(a.len(), b.len());
    for i in 0..a.len() {
        assert_eq!(a[i].id, b[i].id);
        assert_eq!(a[i].title, b[i].title);
        assert_eq!(a[i].body, b[i].body);
    }
    assert_eq!(a[0].id, ids[0]);
    assert_eq!(a[2].id, ids[2]);
}

#[test]
fn load_rejects_duplicate_ids() {
    let text = "[{\"id\":\"x\",\"title\":\"a\",\"body\":\"\"},{\"id\":\"x\",\"title\":\"b\",\"body\":\"\"}]";
    assert!(matches!(TaskStore::load_from(Some(text)), Err(StorageError::DuplicateId)));
}

#[test]
fn load_rejects_corrupt_text() {
    assert!(matches!(TaskStore::load_from(Some("{broken")), Err(StorageError::Malformed)));
}

#[test]
fn create_returns_fresh_hyphenated_id() {
    let mut store = TaskStore::new();
    let t = store.create("a".to_string(), "b".to_string()).unwrap();
    assert_eq!(t.id.len(), 36);
    assert_eq!(t.title, "a");
    assert_eq!(t.body, "b");
    assert_eq!(store.count(), 1);
    assert_eq!(store.list()[0].id, t.id);
}

#[test]
fn repeated_creates_have_unique_ids() {
    let mut store = TaskStore::new();
    let mut ids: Vec<String> = Vec::new();
    for i in 0..1000 {
        let t = store.create(format!("task {}", i), String::new()).unwrap();
        ids.push(t.id);
    }
    assert_eq!(store.count(), 1000);
    let mut sorted = ids.clone();
    sorted.sort();
    for i in 1..sorted.len() {
        assert_ne!(sorted[i - 1], sorted[i]);
    }
}

#[test]
fn update_changes_fields_and_keeps_id_and_length() {
    let (mut store, ids) = store_with(&[("a", "1"), ("b", "2"), ("c", "3")]);
    store.update(ids[1].clone(), "B".to_string(), "two".to_string());
    assert_eq!(store.count(), 3);
    let tasks = store.list();
    assert_eq!(tasks[1].id, ids[1]);
    assert_eq!(tasks[1].title, "B");
    assert_eq!(tasks[1].body, "two");
    assert_eq!(tasks[0].title, "a");
    assert_eq!(tasks[2].title, "c");
}

#[test]
fn update_missing_id_reencodes_identically() {
    let (mut store, _ids) = store_with(&[("a", "1"), ("b", "2")]);
    let before = store.save();
    store.update("nonexistent".to_string(), "T".to_string(), "B".to_string());
    let after = store.save();
    assert_eq!(before, after);
}

#[test]
fn delete_removes_exactly_one() {
    let (mut store, ids) = store_with(&[("A", ""), ("B", ""), ("C", "")]);
    store.delete(ids[1].clone());
    assert_eq!(store.count(), 2);
    let tasks = store.list();
    assert_eq!(tasks[0].id, ids[0]);
    assert_eq!(tasks[0].title, "A");
    assert_eq!(tasks[1].id, ids[2]);
    assert_eq!(tasks[1].title, "C");
}

#[test]
fn delete_missing_id_changes_nothing() {
    let (mut store, _ids) = store_with(&[("A", ""), ("B", "")]);
    store.delete("nonexistent".to_string());
    assert_eq!(store.count(), 2);
}

#[test]
fn scenario_create_list_delete_update() {
    let mut store = TaskStore::load_from(None).unwrap();
    let first = store.create("Buy milk".to_string(), "2%".to_string()).unwrap();
    assert_eq!(store.count(), 1);
    let second = store.create("Walk dog".to_string(), String::new()).unwrap();
    assert_eq!(store.count(), 2);
    {
        let tasks = store.list();
        assert_eq!(tasks[0].title, "Buy milk");
        assert_eq!(tasks[1].title, "Walk dog");
    }
    store.delete(first.id.clone());
    {
        let tasks = store.list();
        assert_eq!(tasks.len(), 1);
        assert_eq!(tasks[0].title, "Walk dog");
        assert_eq!(tasks[0].id, second.id);
    }
    store.update(second.id.clone(), "Walk dog".to_string(), "evening".to_string());
    let tasks = store.list();
    assert_eq!(tasks.len(), 1);
    assert_eq!(tasks[0].id, second.id);
    assert_eq!(tasks[0].body, "evening");
}

#[test]
fn parse_action_recognizes_all_actions() {
    assert!(matches!(parse_action("create"), Some(Action::Create)));
    assert!(matches!(parse_action("update"), Some(Action::Update)));
    assert!(matches!(parse_action("delete"), Some(Action::Delete)));
    assert!(matches!(parse_action("list"), Some(Action::List)));
    assert!(matches!(parse_action("help"), Some(Action::Help)));
    assert!(parse_action("created").is_none());
    assert!(parse_action("Create").is_none());
    assert!(parse_action("").is_none());
}

#[test]
fn required_argument_counts() {
    assert_eq!(required_args(&Action::Create), 2);
    assert_eq!(required_args(&Action::Update), 3);
    assert_eq!(required_args(&Action::Delete), 1);
    assert_eq!(required_args(&Action::List), 0);
    assert_eq!(required_args(&Action::Help), 0);
}

#[test]
fn dispatch_rejects_unknown_action() {
    let mut store = TaskStore::new();
    let args: Vec<String> = vec![];
    let r = dispatch(&mut store, "frobnicate", &args);
    assert!(matches!(r, Err(ArgumentError::UnknownAction)));
    assert_eq!(store.count(), 0);
}

#[test]
fn dispatch_rejects_too_few_arguments() {
    let mut store = TaskStore::new();
    let one = vec!["only-title".to_string()];
    assert!(matches!(dispatch(&mut store, "create", &one), Err(ArgumentError::TooFewArguments)));
    let two = vec!["id".to_string(), "title".to_string()];
    assert!(matches!(dispatch(&mut store, "update", &two), Err(ArgumentError::TooFewArguments)));
    let none: Vec<String> = vec![];
    assert!(matches!(dispatch(&mut store, "delete", &none), Err(ArgumentError::TooFewArguments)));
    assert_eq!(store.count(), 0);
}

#[test]
fn dispatch_runs_the_requested_operation() {
    let mut store = TaskStore::new();
    let args = vec!["Buy milk".to_string(), "2%".to_string()];
    let r = dispatch(&mut store, "create", &args);
    let created = match r {
        Ok(Outcome::Created(t)) => t,
        _ => panic!("expected a created task"),
    };
    assert_eq!(store.count(), 1);
    assert_eq!(created.title, "Buy milk");

    let upd = vec![created.id.clone(), "Buy milk".to_string(), "skim".to_string()];
    assert!(matches!(dispatch(&mut store, "update", &upd), Ok(Outcome::Updated)));
    assert_eq!(store.list()[0].body, "skim");

    let no_args: Vec<String> = vec![];
    assert!(matches!(dispatch(&mut store, "list", &no_args), Ok(Outcome::Listed)));
    assert!(matches!(dispatch(&mut store, "help", &no_args), Ok(Outcome::Helped)));
    assert_eq!(store.count(), 1);

    let del = vec![created.id.clone()];
    assert!(matches!(dispatch(&mut store, "delete", &del), Ok(Outcome::Deleted)));
    assert_eq!(store.count(), 0);
}

#[test]
fn help_table_lists_all_actions() {
    let commands = help_commands();
    assert_eq!(commands.len(), 5);
    assert_eq!(commands[0].name, "create");
    assert_eq!(commands[1].name, "update");
    assert_eq!(commands[2].name, "delete");
    assert_eq!(commands[3].name, "list");
    assert_eq!(commands[4].name, "help");
    assert_eq!(commands[0].command, "cli.exe create \"<title>\" \"<body>\"");
    assert_eq!(
        commands[0].information,
        "Used to create a new TODO. <title> is the title, <body> is the description."
    );
    assert_eq!(commands[3].command, "cli.exe list");
    assert_eq!(commands[4].information, "Displays the list of available commands and their descriptions.");
}

#[test]
fn render_widths() {
    let tasks: Vec<Todo> = vec![];
    assert_eq!(max_row_width(&tasks), 0);
    let tasks = vec![
        Todo { id: "ab".to_string(), title: "cd".to_string(), body: "e".to_string() },
        Todo { id: "a".to_string(), title: "b".to_string(), body: "c".to_string() },
    ];
    assert_eq!(max_row_width(&tasks), 2 + 2 + 1 + 15);
    assert_eq!(banner(5), "=====");
    assert_eq!(banner(0), "");
    assert_eq!(title_rule_len(20), 7);
    assert_eq!(title_rule_len(4), 0);
}
