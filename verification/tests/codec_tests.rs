use todo_store::codec::{decode, encode, StorageError};
use todo_store::task::Todo;

fn task(id: &str, title: &str, body: &str) -> Todo {
    Todo { id: id.to_string(), title: title.to_string(), body: body.to_string() }
}

fn assert_tasks_eq(a: &[Todo], b: &[Todo]) {
    assert_eq!(a.len(), b.len());
    for i in 0..a.len() {
        assert_eq!(a[i].id, b[i].id);
        assert_eq!(a[i].title, b[i].title);
        assert_eq!(a[i].body, b[i].body);
    }
}

#[test]
fn encode_empty_is_brackets() {
    let tasks: Vec<Todo> = vec![];
    assert_eq!(encode(&tasks), "[]");
}

#[test]
fn encode_one_task_exact() {
    let tasks = vec![task("a1", "Buy milk", "2%")];
    assert_eq!(encode(&tasks), "[{\"id\":\"a1\",\"title\":\"Buy milk\",\"body\":\"2%\"}]");
}

#[test]
fn encode_two_tasks_exact() {
    let tasks = vec![task("a", "t", "b"), task("c", "u", "d")];
    assert_eq!(
        encode(&tasks),
        "[{\"id\":\"a\",\"title\":\"t\",\"body\":\"b\"},{\"id\":\"c\",\"title\":\"u\",\"body\":\"d\"}]"
    );
}

#[test]
fn encode_escapes_quotes_backslashes_and_controls() {
    let tasks = vec![task("x", "say \"hi\"", "a\\b\nc\td")];
    assert_eq!(
        encode(&tasks),
        "[{\"id\":\"x\",\"title\":\"say \\\"hi\\\"\",\"body\":\"a\\\\b\\u000ac\\u0009d\"}]"
    );
}

#[test]
fn decode_empty_brackets() {
    let r = decode("[]").unwrap();
    assert_eq!(r.len(), 0);
}

#[test]
fn decode_canonical_text() {
    let r = decode("[{\"id\":\"a1\",\"title\":\"Buy milk\",\"body\":\"2%\"}]").unwrap();
    assert_eq!(r.len(), 1);
    assert_eq!(r[0].id, "a1");
    assert_eq!(r[0].title, "Buy milk");
    assert_eq!(r[0].body, "2%");
}

#[test]
fn decode_unescapes() {
    let r = decode(
        "[{\"id\":\"x\",\"title\":\"say \\\"hi\\\"\",\"body\":\"a\\\\b\\u000ac\"}]",
    )
    .unwrap();
    assert_eq!(r[0].title, "say \"hi\"");
    assert_eq!(r[0].body, "a\\b\nc");
}

#[test]
fn round_trip_many_tasks() {
    let tasks = vec![
        task("id-1", "first", ""),
        task("id-2", "second \"quoted\"", "line1\nline2"),
        task("id-3", "unicode ünïcødé ✓", "tab\there"),
        task("id-4", "back\\slash", "control\u{1}char"),
    ];
    let text = encode(&tasks);
    let back = decode(&text).unwrap();
    assert_tasks_eq(&back, &tasks);
}

#[test]
fn round_trip_empty() {
    let tasks: Vec<Todo> = vec![];
    let back = decode(&encode(&tasks)).unwrap();
    assert_eq!(back.len(), 0);
}

#[test]
fn decode_rejects_empty_text() {
    assert!(matches!(decode(""), Err(StorageError::Malformed)));
}

#[test]
fn decode_rejects_garbage() {
    assert!(matches!(decode("not json at all"), Err(StorageError::Malformed)));
}

#[test]
fn decode_rejects_unclosed_array() {
    assert!(matches!(
        decode("[{\"id\":\"a\",\"title\":\"t\",\"body\":\"b\"}"),
        Err(StorageError::Malformed)
    ));
}

#[test]
fn decode_rejects_wrong_field_order() {
    assert!(matches!(
        decode("[{\"title\":\"t\",\"id\":\"a\",\"body\":\"b\"}]"),
        Err(StorageError::Malformed)
    ));
}

#[test]
fn decode_rejects_trailing_text() {
    assert!(matches!(
        decode("[{\"id\":\"a\",\"title\":\"t\",\"body\":\"b\"}] "),
        Err(StorageError::Malformed)
    ));
}

#[test]
fn decode_rejects_unescaped_control() {
    assert!(matches!(
        decode("[{\"id\":\"a\",\"title\":\"t\nt\",\"body\":\"b\"}]"),
        Err(StorageError::Malformed)
    ));
}

#[test]
fn decode_rejects_bad_escape() {
    assert!(matches!(
        decode("[{\"id\":\"a\",\"title\":\"t\\x\",\"body\":\"b\"}]"),
        Err(StorageError::Malformed)
    ));
}
