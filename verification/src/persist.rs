//! Where a finished span goes: to the queue when it is critical, to a file
//! under the log root when it is not. The queue is called from here. The disk
//! is not touched here: a [`LocalSave`] says step by step what is to be done
//! with it, and is told how each step went.

use vstd::prelude::*;
use vstd::string::StrSliceExecFns;
use vstd::string::StringExecFns;
use crate::frame::Frame;
use crate::frame::FrameView;
use crate::json::Json;
use crate::json::JsonView;

verus! {

/// The durable channel that takes the records of critical spans.
pub trait Queue {
    /// Takes one record for delivery. Returns whether the record was taken.
    fn enqueue(&self, record: Json) -> bool;
}

/// A boxed queue is a queue: it hands on what it is given.
impl Queue for Box<dyn Queue> {
    fn enqueue(&self, record: Json) -> bool {
        (**self).enqueue(record)
    }
}

/// Whether `taken` is what `queue` can answer when it is handed `record`.
pub open spec fn queue_returns<Q: Queue>(queue: &Q, record: JsonView, taken: bool) -> bool {
    exists|doc: Json| doc@ == record && #[trigger] call_ensures(Q::enqueue, (queue, doc), taken)
}

/// What went wrong inside the runtime itself. None of these stops the
/// observed work.
#[derive(Clone, Copy, Debug, PartialEq, Eq, Structural)]
pub enum Diagnostic {
    /// A span was to be ended while none was open.
    NoOpenSpan,
    /// The log root is no directory.
    LogRootMissing,
    /// The directory of the span's name could not be made.
    DirNotCreated,
    /// The file of the span's key could not be made.
    FileNotCreated,
    /// The record could not be written into its file.
    WriteFailed,
    /// The queue did not take the record.
    QueueRefused,
    /// The backend at this place of the list failed in one of its hooks.
    BackendFailed(usize),
}

/// How far a [`LocalSave`] has come.
#[derive(Clone, Copy, Debug, PartialEq, Eq, Structural)]
pub enum Stage {
    /// Next: find out whether the log root is a directory.
    CheckRoot,
    /// Next: make the directory of the span's name, unless it is there.
    MakeDir,
    /// Next: make the file of the span's key in that directory.
    CreateFile,
    /// Next: write the record into the file.
    Write,
    /// The record is in its file.
    Saved,
    /// A step failed; nothing more is done.
    Skipped,
}

/// The stage that follows `stage` once its step went well (`ok`) or did not.
pub open spec fn next_stage(stage: Stage, ok: bool) -> Stage {
    match stage {
        Stage::CheckRoot => if ok {
            Stage::MakeDir
        } else {
            Stage::Skipped
        },
        Stage::MakeDir => if ok {
            Stage::CreateFile
        } else {
            Stage::Skipped
        },
        Stage::CreateFile => if ok {
            Stage::Write
        } else {
            Stage::Skipped
        },
        Stage::Write => if ok {
            Stage::Saved
        } else {
            Stage::Skipped
        },
        Stage::Saved => Stage::Saved,
        Stage::Skipped => Stage::Skipped,
    }
}

/// What is reported when the step of `stage` went well (`ok`) or did not.
pub open spec fn step_diagnostic(stage: Stage, ok: bool) -> Option<Diagnostic> {
    if ok {
        None
    } else {
        match stage {
            Stage::CheckRoot => Some(Diagnostic::LogRootMissing),
            Stage::MakeDir => Some(Diagnostic::DirNotCreated),
            Stage::CreateFile => Some(Diagnostic::FileNotCreated),
            Stage::Write => Some(Diagnostic::WriteFailed),
            Stage::Saved => None,
            Stage::Skipped => None,
        }
    }
}

/// The stage reached from `stage` when the steps go as `events` says, one
/// after the other.
pub open spec fn run_stages(stage: Stage, events: Seq<bool>) -> Stage
    decreases events.len(),
{
    if events.len() == 0 {
        stage
    } else {
        run_stages(next_stage(stage, events[0]), events.subrange(1, events.len() as int))
    }
}

/// `name` below `base`: one `/` stands between them, which `base` may bring itself.
pub open spec fn join(base: Seq<char>, name: Seq<char>) -> Seq<char> {
    if base.len() > 0 && base.last() == '/' {
        base + name
    } else {
        base + seq!['/'] + name
    }
}

/// `name` below `base`, as a path.
pub fn join_path(base: &str, name: &str) -> (path: String)
    ensures
        path@ == join(base@, name@),
{
    let mut path = base.to_owned();
    let n = base.unicode_len();
    if n == 0 || base.get_char(n - 1) != '/' {
        proof {
            reveal_strlit("/");
            assert("/"@ =~= seq!['/']);
        }
        path.append("/");
    }
    path.append(name);
    path
}

/// The saving of one record into a file below the log root, as a sequence of
/// steps on the disk. Whoever holds the disk does the step that `stage` asks
/// for and reports with [`LocalSave::advance`] how it went.
#[derive(Debug, PartialEq, Eq)]
pub struct LocalSave {
    /// The log root.
    pub root: String,
    /// The directory of the span's name below the log root.
    pub dir: String,
    /// The name of the file: the span's key.
    pub name: String,
    /// What goes into the file.
    pub content: Json,
    pub stage: Stage,
}

/// The mathematical value of a [`LocalSave`].
pub struct LocalSaveView {
    pub root: Seq<char>,
    pub dir: Seq<char>,
    pub name: Seq<char>,
    pub content: JsonView,
    pub stage: Stage,
}

impl LocalSaveView {
    /// The saving of `frame` below `root`, before its first step.
    pub open spec fn of(frame: FrameView, root: Seq<char>) -> LocalSaveView {
        LocalSaveView {
            root,
            dir: join(root, frame.id),
            name: frame.key,
            content: frame.record(),
            stage: Stage::CheckRoot,
        }
    }

    /// The path of the file.
    pub open spec fn path(self) -> Seq<char> {
        join(self.dir, self.name)
    }

    /// This saving after its current step went well (`ok`) or did not.
    pub open spec fn advanced(self, ok: bool) -> LocalSaveView {
        LocalSaveView { stage: next_stage(self.stage, ok), ..self }
    }
}

impl View for LocalSave {
    type V = LocalSaveView;

    open spec fn view(&self) -> LocalSaveView {
        LocalSaveView {
            root: self.root@,
            dir: self.dir@,
            name: self.name@,
            content: self.content@,
            stage: self.stage,
        }
    }
}

impl LocalSave {
    /// The path of the file that the record goes into.
    pub fn path(&self) -> (path: String)
        ensures
            path@ == self@.path(),
    {
        join_path(self.dir.as_str(), self.name.as_str())
    }

    /// Whether no step is left to do.
    pub fn is_done(&self) -> (done: bool)
        ensures
            done == (self.stage == Stage::Saved || self.stage == Stage::Skipped),
    {
        match self.stage {
            Stage::Saved => true,
            Stage::Skipped => true,
            _ => false,
        }
    }

    /// Takes note of how the current step went and moves on. A failed step
    /// ends the saving and is reported.
    pub fn advance(&mut self, ok: bool) -> (report: Option<Diagnostic>)
        ensures
            final(self)@ == old(self)@.advanced(ok),
            report == step_diagnostic(old(self).stage, ok),
    {
        let stage = self.stage;
        let next = match stage {
            Stage::CheckRoot => if ok {
                Stage::MakeDir
            } else {
                Stage::Skipped
            },
            Stage::MakeDir => if ok {
                Stage::CreateFile
            } else {
                Stage::Skipped
            },
            Stage::CreateFile => if ok {
                Stage::Write
            } else {
                Stage::Skipped
            },
            Stage::Write => if ok {
                Stage::Saved
            } else {
                Stage::Skipped
            },
            Stage::Saved => Stage::Saved,
            Stage::Skipped => Stage::Skipped,
        };
        self.stage = next;
        if ok {
            None
        } else {
            match stage {
                Stage::CheckRoot => Some(Diagnostic::LogRootMissing),
                Stage::MakeDir => Some(Diagnostic::DirNotCreated),
                Stage::CreateFile => Some(Diagnostic::FileNotCreated),
                Stage::Write => Some(Diagnostic::WriteFailed),
                Stage::Saved => None,
                Stage::Skipped => None,
            }
        }
    }
}

/// What is to be done with a finished span.
#[derive(Debug, PartialEq, Eq)]
pub enum Persist {
    /// Hand the record to the queue.
    Enqueue(Json),
    /// Save the record below the log root.
    Local(LocalSave),
}

/// The mathematical value of a [`Persist`].
pub enum PersistView {
    Enqueue(JsonView),
    Local(LocalSaveView),
}

impl PersistView {
    /// What is to be done with `frame`: a critical span goes to the queue, any
    /// other below `root`, as the same record.
    pub open spec fn of(frame: FrameView, critical: bool, root: Seq<char>) -> PersistView {
        if critical {
            PersistView::Enqueue(frame.record())
        } else {
            PersistView::Local(LocalSaveView::of(frame, root))
        }
    }

    /// The record that is handed on.
    pub open spec fn record(self) -> JsonView {
        match self {
            PersistView::Enqueue(record) => record,
            PersistView::Local(save) => save.content,
        }
    }
}

impl View for Persist {
    type V = PersistView;

    open spec fn view(&self) -> PersistView {
        match self {
            Persist::Enqueue(record) => PersistView::Enqueue(record@),
            Persist::Local(save) => PersistView::Local(save@),
        }
    }
}

impl Persist {
    /// Does what can be done without the disk: a record for the queue is
    /// handed to `queue`, a saving below the log root is handed back.
    /// `refused` says that the queue did not take its record.
    pub fn deliver<Q: Queue>(self, queue: &Q) -> (left: (Option<LocalSave>, bool))
        ensures
            match self@ {
                PersistView::Enqueue(record) => left.0 is None && queue_returns(
                    queue,
                    record,
                    !left.1,
                ),
                PersistView::Local(save) => left.0 is Some && left.0->0@ == save && !left.1,
            },
    {
        match self {
            Persist::Enqueue(record) => {
                let taken = queue.enqueue(record);
                (None, !taken)
            },
            Persist::Local(save) => (Some(save), false),
        }
    }
}

impl Frame {
    /// What is to be done with this span once it has ended: exactly one thing,
    /// and for a critical span it is the queue.
    pub fn persist(&self, critical: bool, log_root: &str) -> (plan: Persist)
        ensures
            plan@ == PersistView::of(self@, critical, log_root@),
    {
        if critical {
            Persist::Enqueue(self.record())
        } else {
            Persist::Local(self.save_on_local(log_root))
        }
    }

    /// Stores the span: the record of a critical one is handed to `queue`, and
    /// nothing is left to do; for any other the saving below `log_root` is
    /// handed back, and the queue is left alone.
    pub fn save<Q: Queue>(&self, critical: bool, queue: &Q, log_root: &str) -> (left: Option<
        LocalSave,
    >)
        ensures
            critical ==> left is None && exists|taken: bool| #[trigger]
                queue_returns(queue, self@.record(), taken),
            !critical ==> left is Some && left->0@ == LocalSaveView::of(self@, log_root@),
    {
        if critical {
            let taken = self.enqueue(queue);
            assert(queue_returns(queue, self@.record(), taken));
            None
        } else {
            Some(self.save_on_local(log_root))
        }
    }

    /// The saving of this span below `log_root`: into the file named by the
    /// span's key, in the directory named by the span's name.
    pub fn save_on_local(&self, log_root: &str) -> (save: LocalSave)
        ensures
            save@ == LocalSaveView::of(self@, log_root@),
    {
        LocalSave {
            root: log_root.to_owned(),
            dir: join_path(log_root, self.id().as_str()),
            name: self.get_key(),
            content: self.record(),
            stage: Stage::CheckRoot,
        }
    }

    /// Hands the record of this span to `queue`. Returns whether the queue
    /// took it.
    pub fn enqueue<Q: Queue>(&self, queue: &Q) -> (taken: bool)
        ensures
            queue_returns(queue, self@.record(), taken),
    {
        queue.enqueue(self.record())
    }
}

/// A saving puts its record into the file exactly when all four steps go
/// well; after four steps nothing is left to do, however they went.
pub proof fn lemma_saved_iff_all_steps_ok(save: LocalSaveView, events: Seq<bool>)
    requires
        save.stage == Stage::CheckRoot,
        events.len() == 4,
    ensures
        run_stages(save.stage, events) == Stage::Saved <==> (events[0] && events[1] && events[2]
            && events[3]),
        run_stages(save.stage, events) == Stage::Saved || run_stages(save.stage, events)
            == Stage::Skipped,
{
    let e1 = events.subrange(1, 4);
    let e2 = e1.subrange(1, 3);
    let e3 = e2.subrange(1, 2);
    let e4 = e3.subrange(1, 1);
    assert(e1[0] == events[1]);
    assert(e2[0] == events[2]);
    assert(e3[0] == events[3]);
    assert(e4.len() == 0);
    reveal_with_fuel(run_stages, 5);
}

/// Both ways of storing a span hand on the same record, and that record
/// holds every note of the span and the record of every span that ended
/// inside it; the file of a span that is not critical lies below the log
/// root, in the directory of the span's name, under the span's key.
pub proof fn lemma_persist_hands_on_the_whole_span(frame: FrameView, root: Seq<char>)
    ensures
        PersistView::of(frame, true, root) is Enqueue,
        PersistView::of(frame, false, root) is Local,
        PersistView::of(frame, true, root).record() == PersistView::of(frame, false, root).record(),
        PersistView::of(frame, false, root)->Local_0.path() == join(
            join(root, frame.id),
            frame.key,
        ),
        PersistView::of(frame, false, root)->Local_0.stage == Stage::CheckRoot,
        frame.record().field("breadcrumbs"@) == Some(JsonView::Object(frame.breadcrumbs)),
        frame.record().field("sub_frames"@) is Some,
        frame.record().field("sub_frames"@)->0 is Array,
        frame.record().field("sub_frames"@)->0->Array_0.len() == frame.sub_frames.len(),
        forall|i: int|
            0 <= i < frame.sub_frames.len() ==> (#[trigger] frame.record().field(
                "sub_frames"@,
            )->0->Array_0[i]) == frame.sub_frames[i].record(),
{
    let fields = frame.record()->Object_0;
    reveal_strlit("id");
    reveal_strlit("key");
    reveal_strlit("breadcrumbs");
    reveal_strlit("success");
    reveal_strlit("result");
    reveal_strlit("start_time");
    reveal_strlit("end_time");
    reveal_strlit("sub_frames");
    assert(fields[0].0 != "breadcrumbs"@) by {
        assert("id"@.len() != "breadcrumbs"@.len());
    }
    assert(fields[1].0 != "breadcrumbs"@) by {
        assert("key"@.len() != "breadcrumbs"@.len());
    }
    crate::named::lemma_first_is_index(fields, "breadcrumbs"@, 2);
    assert forall|j: int| 0 <= j < 7 implies (#[trigger] fields[j]).0 != "sub_frames"@ by {
        assert("id"@.len() != "sub_frames"@.len());
        assert("key"@.len() != "sub_frames"@.len());
        assert("breadcrumbs"@.len() != "sub_frames"@.len());
        assert("success"@.len() != "sub_frames"@.len());
        assert("result"@.len() != "sub_frames"@.len());
        assert("start_time"@[1] != "sub_frames"@[1]);
        assert("end_time"@.len() != "sub_frames"@.len());
    }
    crate::named::lemma_first_is_index(fields, "sub_frames"@, 7);
}

} // verus!
