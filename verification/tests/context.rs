use observer::clock::Timestamp;
use observer::context::Context;
use observer::context::SpanEnd;
use observer::json::Json;

fn at(secs: i64) -> Timestamp {
    Timestamp { secs, nanos: 0 }
}

#[test]
fn new_context_has_no_open_span() {
    let context = Context::new("req-1".to_string());
    assert_eq!(context.id(), "req-1");
    assert_eq!(context.depth(), 0);
    assert!(context.top().is_none());
    assert!(context.span(0).is_none());
}

#[test]
fn start_span_returns_the_place_in_the_stack() {
    let mut context = Context::new("req-1".to_string());
    assert_eq!(context.start_span("outer"), 0);
    assert_eq!(context.start_span("inner"), 1);
    assert_eq!(context.depth(), 2);
    assert_eq!(context.span(0).unwrap().id(), "outer");
    assert_eq!(context.span(1).unwrap().id(), "inner");
    assert_eq!(context.top().unwrap().id(), "inner");
    assert!(context.span(2).is_none());
    assert!(!context.top().unwrap().is_closed());
    assert_eq!(context.top().unwrap().get_key().chars().count(), 36);
}

#[test]
fn end_span_with_no_open_span_changes_nothing() {
    let mut context = Context::new("req-1".to_string());
    let end = context.end_span(true, None);
    assert_eq!(end, SpanEnd::NoOpenSpan);
    assert_eq!(context, Context::new("req-1".to_string()));
    let end = context.end_span_at(false, Some("late".to_string()), None, at(3));
    assert_eq!(end, SpanEnd::NoOpenSpan);
    assert_eq!(context.depth(), 0);
}

#[test]
fn outermost_span_is_handed_back_finished() {
    let mut context = Context::new("req-1".to_string());
    context.start_span_at("root", "r".to_string(), at(1));
    let end = context.end_span_at(true, None, Some(Json::Int(5)), at(2));
    assert_eq!(context.depth(), 0);
    match end {
        SpanEnd::Root { frame, critical } => {
            assert!(critical);
            assert_eq!(frame.id(), "root");
            assert_eq!(frame.get_key(), "r");
            assert_eq!(frame.success(), Some(true));
            assert_eq!(frame.result(), Some(&Json::Int(5)));
            assert_eq!(frame.start_time(), at(1));
            assert_eq!(frame.end_time(), Some(at(2)));
            assert!(frame.sub_frames().is_empty());
        }
        other => panic!("unexpected {:?}", other),
    }
}

#[test]
fn failed_span_notes_its_reason_and_keeps_no_result() {
    let mut context = Context::new("req-1".to_string());
    context.start_span_at("root", "r".to_string(), at(1));
    let end = context.end_span_at(false, Some("boom".to_string()), Some(Json::Int(5)), at(2));
    match end {
        SpanEnd::Root { frame, critical } => {
            assert!(!critical);
            assert_eq!(frame.success(), Some(false));
            assert_eq!(frame.result(), None);
            assert_eq!(frame.breadcrumb("error"), Some(&Json::Str("boom".to_string())));
        }
        other => panic!("unexpected {:?}", other),
    }
}

#[test]
fn end_span_reads_the_clock() {
    let mut context = Context::new("req-1".to_string());
    context.start_span("root");
    match context.end_span(false, None) {
        SpanEnd::Root { frame, .. } => {
            assert!(frame.end_time().unwrap().secs > 1_000_000_000);
            assert_eq!(frame.success(), Some(true));
        }
        other => panic!("unexpected {:?}", other),
    }
}

#[test]
fn children_are_held_in_the_order_in_which_they_ended() {
    let mut context = Context::new("req-1".to_string());
    context.start_span_at("root", "r".to_string(), at(1));
    context.start_span_at("a", "ka".to_string(), at(2));
    context.start_span_at("a1", "ka1".to_string(), at(3));
    assert_eq!(context.end_span_at(false, None, None, at(4)), SpanEnd::Attached { record: None });
    context.start_span_at("a2", "ka2".to_string(), at(5));
    assert_eq!(context.end_span_at(false, None, None, at(6)), SpanEnd::Attached { record: None });
    assert_eq!(context.end_span_at(false, None, None, at(7)), SpanEnd::Attached { record: None });
    context.start_span_at("b", "kb".to_string(), at(8));
    match context.end_span_at(true, Some("bad".to_string()), None, at(9)) {
        SpanEnd::Attached { record: Some(record) } => {
            assert_eq!(record.get(&"id".to_string()), Some(&Json::Str("b".to_string())));
            assert_eq!(record.get(&"success".to_string()), Some(&Json::Bool(false)));
        }
        other => panic!("unexpected {:?}", other),
    }
    assert_eq!(context.depth(), 1);
    let end = context.end_span_at(false, None, None, at(10));
    let root = match end {
        SpanEnd::Root { frame, .. } => frame,
        other => panic!("unexpected {:?}", other),
    };
    let children: Vec<&str> = root.sub_frames().iter().map(|f| f.id().as_str()).collect();
    assert_eq!(children, vec!["a", "b"]);
    let a = &root.sub_frames()[0];
    let grandchildren: Vec<&str> = a.sub_frames().iter().map(|f| f.id().as_str()).collect();
    assert_eq!(grandchildren, vec!["a1", "a2"]);
    assert_eq!(a.end_time(), Some(at(7)));
    let b = &root.sub_frames()[1];
    assert_eq!(b.success(), Some(false));
    assert!(b.sub_frames().is_empty());
    assert!(root.sub_frames().iter().all(|f| f.is_closed()));
}

#[test]
fn breadcrumb_goes_to_the_innermost_open_span() {
    let mut context = Context::new("req-1".to_string());
    assert!(!context.add_breadcrumb("k", Json::Int(1)));
    context.start_span_at("root", "r".to_string(), at(1));
    context.start_span_at("leaf", "l".to_string(), at(2));
    assert!(context.add_breadcrumb("k", Json::Int(2)));
    assert_eq!(context.span(0).unwrap().breadcrumb("k"), None);
    assert_eq!(context.span(1).unwrap().breadcrumb("k"), Some(&Json::Int(2)));
}

#[test]
fn critical_span_inside_another_leaves_its_record_for_the_queue() {
    let mut context = Context::new("req-1".to_string());
    context.start_span_at("outer", "o".to_string(), at(1));
    context.start_span_at("inner", "i".to_string(), at(2));
    let end = context.end_span_at(true, None, Some(Json::Int(42)), at(3));
    assert_eq!(context.depth(), 1);
    let held = context.top().unwrap().sub_frames();
    assert_eq!(held.len(), 1);
    assert_eq!(end, SpanEnd::Attached { record: Some(held[0].record()) });
    assert!(!context.top().unwrap().is_closed());
    context.start_span_at("plain", "p".to_string(), at(4));
    assert_eq!(context.end_span_at(false, None, None, at(5)), SpanEnd::Attached { record: None });
}
