use observer::clock::Timestamp;
use observer::frame::Frame;
use observer::json::Json;
use observer::persist::join_path;
use observer::persist::Diagnostic;
use observer::persist::LocalSave;
use observer::persist::Persist;
use observer::persist::Queue;
use observer::persist::Stage;
use std::cell::RefCell;
use std::rc::Rc;

struct Memory {
    records: Rc<RefCell<Vec<Json>>>,
    accept: bool,
}

impl Queue for Memory {
    fn enqueue(&self, record: Json) -> bool {
        self.records.borrow_mut().push(record);
        self.accept
    }
}

fn memory(accept: bool) -> (Box<dyn Queue>, Rc<RefCell<Vec<Json>>>) {
    let records = Rc::new(RefCell::new(Vec::new()));
    (Box::new(Memory { records: records.clone(), accept }), records)
}

fn finished() -> Frame {
    let mut frame = Frame::opened(
        "fetch_user".to_string(),
        "key-1".to_string(),
        Timestamp { secs: 1, nanos: 0 },
    );
    frame.add_breadcrumbs("user", Json::Str("ann".to_string()));
    frame.end_at(true, Some(Json::Int(1)), Timestamp { secs: 2, nanos: 0 });
    frame
}

#[test]
fn join_path_puts_one_slash_between() {
    assert_eq!(join_path("/var/log", "fetch_user"), "/var/log/fetch_user");
    assert_eq!(join_path("/var/log/", "fetch_user"), "/var/log/fetch_user");
    assert_eq!(join_path("", "x"), "/x");
    assert_eq!(join_path("/", "x"), "/x");
    assert_eq!(join_path("logs", ""), "logs/");
    assert_eq!(join_path("l\u{f6}g", "x"), "l\u{f6}g/x");
}

#[test]
fn critical_span_goes_to_the_queue() {
    let frame = finished();
    match frame.persist(true, "/var/log/") {
        Persist::Enqueue(record) => assert_eq!(record, frame.record()),
        other => panic!("unexpected {:?}", other),
    }
}

#[test]
fn other_span_goes_below_the_log_root() {
    let frame = finished();
    match frame.persist(false, "/var/log/") {
        Persist::Local(save) => {
            assert_eq!(save.root, "/var/log/");
            assert_eq!(save.dir, "/var/log/fetch_user");
            assert_eq!(save.name, "key-1");
            assert_eq!(save.path(), "/var/log/fetch_user/key-1");
            assert_eq!(save.content, frame.record());
            assert_eq!(save.stage, Stage::CheckRoot);
        }
        other => panic!("unexpected {:?}", other),
    }
}

#[test]
fn both_ways_hand_on_the_same_record() {
    let frame = finished();
    let queued = match frame.persist(true, "/tmp/logs") {
        Persist::Enqueue(record) => record,
        other => panic!("unexpected {:?}", other),
    };
    let written = match frame.persist(false, "/tmp/logs") {
        Persist::Local(save) => save.content,
        other => panic!("unexpected {:?}", other),
    };
    assert_eq!(queued, written);
    assert_eq!(
        queued.get(&"breadcrumbs".to_string()),
        Some(&Json::Object(vec![("user".to_string(), Json::Str("ann".to_string()))]))
    );
}

#[test]
fn save_of_a_critical_span_calls_the_queue_once() {
    let frame = finished();
    let (queue, records) = memory(true);
    let left = frame.save(true, &queue, "/var/log/");
    assert_eq!(left, None);
    assert_eq!(*records.borrow(), vec![frame.record()]);
}

#[test]
fn save_of_another_span_leaves_the_queue_alone() {
    let frame = finished();
    let (queue, records) = memory(true);
    let left = frame.save(false, &queue, "/var/log");
    assert!(records.borrow().is_empty());
    let save = left.unwrap();
    assert_eq!(save, frame.save_on_local("/var/log"));
    assert_eq!(save.path(), "/var/log/fetch_user/key-1");
}

#[test]
fn enqueue_says_whether_the_queue_took_the_record() {
    let frame = finished();
    let (yes, taken) = memory(true);
    let (no, refused) = memory(false);
    assert!(frame.enqueue(&yes));
    assert!(!frame.enqueue(&no));
    assert_eq!(taken.borrow().len(), 1);
    assert_eq!(refused.borrow().len(), 1);
}

#[test]
fn deliver_hands_a_record_to_the_queue_and_a_saving_back() {
    let frame = finished();
    let (queue, records) = memory(false);
    let (left, refused) = frame.persist(true, "/l").deliver(&queue);
    assert_eq!(left, None);
    assert!(refused);
    assert_eq!(records.borrow().len(), 1);
    let (left, refused) = frame.persist(false, "/l").deliver(&queue);
    assert_eq!(left, Some(frame.save_on_local("/l")));
    assert!(!refused);
    assert_eq!(records.borrow().len(), 1);
}

fn run(events: &[bool]) -> (LocalSave, Vec<Option<Diagnostic>>) {
    let mut save = finished().save_on_local("/var/log/");
    let mut reports = Vec::new();
    for ok in events {
        reports.push(save.advance(*ok));
    }
    (save, reports)
}

#[test]
fn saving_goes_through_its_four_steps() {
    let mut save = finished().save_on_local("/var/log/");
    assert_eq!(save.stage, Stage::CheckRoot);
    assert!(!save.is_done());
    assert_eq!(save.advance(true), None);
    assert_eq!(save.stage, Stage::MakeDir);
    assert_eq!(save.advance(true), None);
    assert_eq!(save.stage, Stage::CreateFile);
    assert_eq!(save.advance(true), None);
    assert_eq!(save.stage, Stage::Write);
    assert!(!save.is_done());
    assert_eq!(save.advance(true), None);
    assert_eq!(save.stage, Stage::Saved);
    assert!(save.is_done());
    assert_eq!(save.advance(false), None);
    assert_eq!(save.stage, Stage::Saved);
}

#[test]
fn missing_log_root_skips_the_saving() {
    let (save, reports) = run(&[false]);
    assert_eq!(save.stage, Stage::Skipped);
    assert!(save.is_done());
    assert_eq!(reports, vec![Some(Diagnostic::LogRootMissing)]);
}

#[test]
fn each_failed_step_has_its_diagnostic() {
    let (save, reports) = run(&[true, false]);
    assert_eq!(save.stage, Stage::Skipped);
    assert_eq!(reports, vec![None, Some(Diagnostic::DirNotCreated)]);
    let (save, reports) = run(&[true, true, false]);
    assert_eq!(save.stage, Stage::Skipped);
    assert_eq!(reports, vec![None, None, Some(Diagnostic::FileNotCreated)]);
    let (save, reports) = run(&[true, true, true, false]);
    assert_eq!(save.stage, Stage::Skipped);
    assert_eq!(reports, vec![None, None, None, Some(Diagnostic::WriteFailed)]);
    let (save, reports) = run(&[false, true, false]);
    assert_eq!(save.stage, Stage::Skipped);
    assert_eq!(reports, vec![Some(Diagnostic::LogRootMissing), None, None]);
}
