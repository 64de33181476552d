use observer::clock::Timestamp;
use observer::frame::Frame;
use observer::json::Json;

fn at(secs: i64) -> Timestamp {
    Timestamp { secs, nanos: 0 }
}

fn numbers(secs: i64, nanos: i64) -> Json {
    Json::Object(vec![
        ("secs".to_string(), Json::Int(secs)),
        ("nanos".to_string(), Json::Int(nanos)),
    ])
}

fn text(moment: &str) -> Json {
    Json::Str(moment.to_string())
}

#[test]
fn new_frame_is_open_and_empty() {
    let frame = Frame::new("fetch_user".to_string());
    assert_eq!(frame.id(), "fetch_user");
    assert_eq!(frame.success(), None);
    assert_eq!(frame.result(), None);
    assert_eq!(frame.end_time(), None);
    assert!(!frame.is_closed());
    assert_eq!(frame.breadcrumb_count(), 0);
    assert!(frame.sub_frames().is_empty());
}

#[test]
fn new_frame_has_a_hyphenated_key() {
    let frame = Frame::new("a".to_string());
    let key = frame.get_key();
    assert_eq!(key.chars().count(), 36);
    assert_ne!(key, "a");
    let parts: Vec<&str> = key.split('-').collect();
    assert_eq!(parts.len(), 5);
}

#[test]
fn new_frames_have_keys_of_their_own() {
    let first = Frame::new("a".to_string());
    let second = Frame::new("a".to_string());
    assert_ne!(first.get_key(), second.get_key());
}

#[test]
fn new_frame_starts_at_a_moment_of_the_clock() {
    let frame = Frame::new("a".to_string());
    let start = frame.start_time();
    assert!(start.nanos < 1_000_000_000);
    // Well after the year 2001, so not a value that was merely handed through.
    assert!(start.secs > 1_000_000_000);
}

#[test]
fn opened_frame_holds_what_was_given() {
    let frame = Frame::opened("job".to_string(), "k-1".to_string(), at(7));
    assert_eq!(frame.id(), "job");
    assert_eq!(frame.get_key(), "k-1");
    assert_eq!(frame.start_time(), at(7));
    assert_eq!(frame.end_time(), None);
}

#[test]
fn start_at_moves_the_start_only() {
    let mut frame = Frame::opened("job".to_string(), "k-1".to_string(), at(7));
    frame.start_at(at(9));
    assert_eq!(frame.start_time(), at(9));
    assert_eq!(frame.end_time(), None);
    assert_eq!(frame.get_key(), "k-1");
}

#[test]
fn start_reads_the_clock() {
    let mut frame = Frame::opened("job".to_string(), "k-1".to_string(), at(7));
    frame.start();
    assert!(frame.start_time().secs > 1_000_000_000);
}

#[test]
fn end_at_sets_end_success_and_result_together() {
    let mut frame = Frame::opened("job".to_string(), "k-1".to_string(), at(7));
    let was_open = frame.end_at(true, Some(Json::Int(42)), at(8));
    assert!(was_open);
    assert!(frame.is_closed());
    assert_eq!(frame.end_time(), Some(at(8)));
    assert_eq!(frame.success(), Some(true));
    assert_eq!(frame.result(), Some(&Json::Int(42)));
}

#[test]
fn end_time_never_changes_once_set() {
    let mut frame = Frame::opened("job".to_string(), "k-1".to_string(), at(7));
    assert_eq!(frame.end_time(), None);
    frame.add_breadcrumbs("before", Json::Bool(true));
    assert_eq!(frame.end_time(), None);
    assert!(frame.end_at(false, None, at(8)));
    let again = frame.end_at(true, Some(Json::Int(1)), at(99));
    assert!(!again);
    assert_eq!(frame.end_time(), Some(at(8)));
    assert_eq!(frame.success(), Some(false));
    assert_eq!(frame.result(), None);
    frame.add_breadcrumbs("after", Json::Bool(true));
    frame.start_at(at(1));
    assert_eq!(frame.end_time(), Some(at(8)));
    assert!(!frame.end(true, None));
    assert_eq!(frame.end_time(), Some(at(8)));
}

#[test]
fn end_reads_the_clock() {
    let mut frame = Frame::opened("job".to_string(), "k-1".to_string(), at(7));
    assert!(frame.end(true, None));
    let end = frame.end_time().unwrap();
    assert!(end.secs > 1_000_000_000);
    assert_eq!(frame.success(), Some(true));
}

#[test]
fn breadcrumbs_keep_the_last_value_written() {
    let mut frame = Frame::opened("job".to_string(), "k-1".to_string(), at(7));
    frame.add_breadcrumbs("user", Json::Str("ann".to_string()));
    frame.add_breadcrumbs("tries", Json::Int(1));
    frame.add_breadcrumbs("user", Json::Str("bob".to_string()));
    assert_eq!(frame.breadcrumb_count(), 2);
    assert_eq!(frame.breadcrumb("user"), Some(&Json::Str("bob".to_string())));
    assert_eq!(frame.breadcrumb("tries"), Some(&Json::Int(1)));
    assert_eq!(frame.breadcrumb("none"), None);
}

#[test]
fn writing_a_breadcrumb_twice_is_writing_it_once() {
    let mut once = Frame::opened("job".to_string(), "k-1".to_string(), at(7));
    once.add_breadcrumbs("user", Json::Str("ann".to_string()));
    let mut twice = Frame::opened("job".to_string(), "k-1".to_string(), at(7));
    twice.add_breadcrumbs("user", Json::Str("ann".to_string()));
    twice.add_breadcrumbs("user", Json::Str("ann".to_string()));
    assert_eq!(once, twice);
}

#[test]
fn close_notes_the_reason_of_a_failure() {
    let mut frame = Frame::opened("job".to_string(), "k-1".to_string(), at(7));
    frame.close(Some("boom".to_string()), Some(Json::Int(1)), at(8));
    assert_eq!(frame.success(), Some(false));
    assert_eq!(frame.result(), None);
    assert_eq!(frame.end_time(), Some(at(8)));
    assert_eq!(frame.breadcrumb("error"), Some(&Json::Str("boom".to_string())));
}

#[test]
fn close_keeps_the_result_of_a_success() {
    let mut frame = Frame::opened("job".to_string(), "k-1".to_string(), at(7));
    frame.close(None, Some(Json::Int(1)), at(8));
    assert_eq!(frame.success(), Some(true));
    assert_eq!(frame.result(), Some(&Json::Int(1)));
    assert_eq!(frame.breadcrumb("error"), None);
}

#[test]
fn sub_frames_come_in_the_order_in_which_they_were_added() {
    let mut parent = Frame::opened("parent".to_string(), "p".to_string(), at(1));
    let mut first = Frame::opened("first".to_string(), "a".to_string(), at(2));
    first.end_at(true, None, at(3));
    let mut second = Frame::opened("second".to_string(), "b".to_string(), at(4));
    second.end_at(true, None, at(5));
    parent.add_sub_frame(first);
    parent.add_sub_frame(second);
    let names: Vec<&str> = parent.sub_frames().iter().map(|f| f.id().as_str()).collect();
    assert_eq!(names, vec!["first", "second"]);
}

#[test]
fn record_of_an_open_frame() {
    let frame = Frame::opened("job".to_string(), "k-1".to_string(), Timestamp { secs: 7, nanos: 5 });
    let expected = Json::Object(vec![
        ("id".to_string(), Json::Str("job".to_string())),
        ("key".to_string(), Json::Str("k-1".to_string())),
        ("breadcrumbs".to_string(), Json::Object(vec![])),
        ("success".to_string(), Json::Null),
        ("result".to_string(), Json::Null),
        ("start_time".to_string(), text("1970-01-01T00:00:07.000000005Z")),
        ("end_time".to_string(), Json::Null),
        ("sub_frames".to_string(), Json::Array(vec![])),
    ]);
    assert_eq!(frame.record(), expected);
}

#[test]
fn record_holds_every_breadcrumb_and_every_sub_frame() {
    let mut child = Frame::opened("inner".to_string(), "c".to_string(), at(2));
    child.add_breadcrumbs("n", Json::Int(3));
    child.end_at(false, None, at(3));
    let child_record = child.record();
    let mut parent = Frame::opened("outer".to_string(), "p".to_string(), at(1));
    parent.add_breadcrumbs("user", Json::Str("ann".to_string()));
    parent.add_breadcrumbs("admin", Json::Bool(false));
    parent.add_sub_frame(child);
    parent.end_at(true, Some(Json::Array(vec![Json::Int(1), Json::Real(4611686018427387904)])), at(4));
    let expected = Json::Object(vec![
        ("id".to_string(), Json::Str("outer".to_string())),
        ("key".to_string(), Json::Str("p".to_string())),
        (
            "breadcrumbs".to_string(),
            Json::Object(vec![
                ("user".to_string(), Json::Str("ann".to_string())),
                ("admin".to_string(), Json::Bool(false)),
            ]),
        ),
        ("success".to_string(), Json::Bool(true)),
        ("result".to_string(), Json::Array(vec![Json::Int(1), Json::Real(4611686018427387904)])),
        ("start_time".to_string(), text("1970-01-01T00:00:01Z")),
        ("end_time".to_string(), text("1970-01-01T00:00:04Z")),
        ("sub_frames".to_string(), Json::Array(vec![child_record])),
    ]);
    let record = parent.record();
    assert_eq!(record, expected);
    let inner = match record.get(&"sub_frames".to_string()) {
        Some(Json::Array(items)) => &items[0],
        _ => panic!("no sub_frames"),
    };
    assert_eq!(inner.get(&"id".to_string()), Some(&Json::Str("inner".to_string())));
    assert_eq!(inner.get(&"success".to_string()), Some(&Json::Bool(false)));
}

#[test]
fn timestamp_is_written_as_text() {
    let t = Timestamp { secs: -3, nanos: 999_999_999 };
    assert_eq!(t.to_json(), text("1969-12-31T23:59:57.999999999Z"));
    let t = Timestamp { secs: 1_431_648_000, nanos: 500_000_000 };
    assert_eq!(t.to_json(), text("2015-05-15T00:00:00.500Z"));
    let t = Timestamp { secs: 0, nanos: 0 };
    assert_eq!(t.to_json(), text("1970-01-01T00:00:00Z"));
}

#[test]
fn timestamp_without_a_text_is_written_as_its_two_numbers() {
    let t = Timestamp { secs: i64::MAX, nanos: 7 };
    assert_eq!(t.to_json(), numbers(i64::MAX, 7));
    let t = Timestamp { secs: 0, nanos: 2_000_000_000 };
    assert_eq!(t.to_json(), numbers(0, 2_000_000_000));
}

#[test]
fn written_as_takes_the_text_that_it_is_given() {
    let t = Timestamp { secs: 1, nanos: 2 };
    assert_eq!(t.written_as(Some("then".to_string())), text("then"));
    assert_eq!(t.written_as(None), numbers(1, 2));
}

#[test]
fn closing_a_span_that_has_ended_changes_nothing() {
    let mut frame = Frame::opened("job".to_string(), "k-1".to_string(), at(7));
    frame.close(None, Some(Json::Int(1)), at(8));
    let before = frame.duplicate();
    frame.close(Some("late".to_string()), None, at(9));
    assert_eq!(frame, before);
    assert_eq!(frame.breadcrumb("error"), None);
    assert_eq!(frame.success(), Some(true));
    assert_eq!(frame.end_time(), Some(at(8)));
}

#[test]
fn json_get_finds_the_first_field_of_a_name() {
    let doc = Json::Object(vec![
        ("a".to_string(), Json::Int(1)),
        ("b".to_string(), Json::Int(2)),
        ("a".to_string(), Json::Int(3)),
    ]);
    assert_eq!(doc.get(&"a".to_string()), Some(&Json::Int(1)));
    assert_eq!(doc.get(&"b".to_string()), Some(&Json::Int(2)));
    assert_eq!(doc.get(&"c".to_string()), None);
    assert_eq!(Json::Int(1).get(&"a".to_string()), None);
    assert_eq!(Json::Array(vec![]).get(&"a".to_string()), None);
}

#[test]
fn json_duplicate_holds_the_same_value() {
    let doc = Json::Object(vec![
        ("a".to_string(), Json::Array(vec![Json::Null, Json::Bool(true), Json::Int(-7)])),
        ("b".to_string(), Json::Object(vec![("c".to_string(), Json::Str("d".to_string()))])),
        ("e".to_string(), Json::Real(1)),
    ]);
    assert_eq!(doc.duplicate(), doc);
    assert_eq!(Json::Null.duplicate(), Json::Null);
}
