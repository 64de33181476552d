//! An in-process tracing runtime: spans of work, nested under a context,
//! annotated, told to a list of backends, and handed on for storage when they
//! end.

pub mod clock;
pub mod context;
pub mod events;
pub mod frame;
pub mod json;
pub mod named;
pub mod observe;
pub mod persist;

use vstd::prelude::*;
use vstd::string::StringExecFns;
use crate::clock::now;
use crate::clock::Timestamp;
pub use crate::context::Context;
use crate::context::ContextView;
use crate::context::SpanEnd;
use crate::context::SpanEndView;
use crate::frame::opt_text;
use crate::frame::opt_view;
use crate::frame::Ending;
use crate::frame::Frame;
use crate::frame::FrameView;
use crate::json::Json;
use crate::persist::Diagnostic;
use crate::persist::LocalSave;
use crate::persist::LocalSaveView;
use crate::persist::Persist;
use crate::persist::PersistView;
use crate::persist::queue_returns;
use crate::persist::Queue;

verus! {

/// A monitoring sink that is told of what happens. Each hook returns whether
/// it went well; a hook that did not is reported and holds nothing up.
pub trait Backend {
    fn app_started(&self) -> bool;

    fn app_ended(&self) -> bool;

    fn context_created(&self, id: &str) -> bool;

    fn context_ended(&self) -> bool;

    fn span_created(&self, id: &str) -> bool;

    fn span_data(&self, key: &str, value: &str) -> bool;

    fn span_ended(&self) -> bool;
}

/// A boxed backend is a backend: it hands on what it is told.
impl Backend for Box<dyn Backend> {
    fn app_started(&self) -> bool {
        (**self).app_started()
    }

    fn app_ended(&self) -> bool {
        (**self).app_ended()
    }

    fn context_created(&self, id: &str) -> bool {
        (**self).context_created(id)
    }

    fn context_ended(&self) -> bool {
        (**self).context_ended()
    }

    fn span_created(&self, id: &str) -> bool {
        (**self).span_created(id)
    }

    fn span_data(&self, key: &str, value: &str) -> bool {
        (**self).span_data(key, value)
    }

    fn span_ended(&self) -> bool {
        (**self).span_ended()
    }
}

/// What the backends are told.
#[derive(Debug, PartialEq, Eq)]
pub enum Notice {
    AppStarted,
    AppEnded,
    ContextCreated(String),
    ContextEnded,
    SpanCreated(String),
    SpanData(String, String),
    SpanEnded,
}

/// The mathematical value of a [`Notice`].
pub enum NoticeView {
    AppStarted,
    AppEnded,
    ContextCreated(Seq<char>),
    ContextEnded,
    SpanCreated(Seq<char>),
    SpanData(Seq<char>, Seq<char>),
    SpanEnded,
}

impl View for Notice {
    type V = NoticeView;

    open spec fn view(&self) -> NoticeView {
        match self {
            Notice::AppStarted => NoticeView::AppStarted,
            Notice::AppEnded => NoticeView::AppEnded,
            Notice::ContextCreated(id) => NoticeView::ContextCreated(id@),
            Notice::ContextEnded => NoticeView::ContextEnded,
            Notice::SpanCreated(id) => NoticeView::SpanCreated(id@),
            Notice::SpanData(key, value) => NoticeView::SpanData(key@, value@),
            Notice::SpanEnded => NoticeView::SpanEnded,
        }
    }
}

/// Whether `ok` is what the hook of `backend` for `notice` can return when
/// it is called with what the notice holds.
pub open spec fn hook_returns<B: Backend>(backend: &B, notice: NoticeView, ok: bool) -> bool {
    match notice {
        NoticeView::AppStarted => call_ensures(B::app_started, (backend,), ok),
        NoticeView::AppEnded => call_ensures(B::app_ended, (backend,), ok),
        NoticeView::ContextCreated(id) => exists|text: &str|
            text@ == id && #[trigger] call_ensures(B::context_created, (backend, text), ok),
        NoticeView::ContextEnded => call_ensures(B::context_ended, (backend,), ok),
        NoticeView::SpanCreated(id) => exists|text: &str|
            text@ == id && #[trigger] call_ensures(B::span_created, (backend, text), ok),
        NoticeView::SpanData(key, value) => exists|k: &str, v: &str|
            k@ == key && v@ == value && #[trigger] call_ensures(B::span_data, (backend, k, v), ok),
        NoticeView::SpanEnded => call_ensures(B::span_ended, (backend,), ok),
    }
}

/// Whether `outcomes` is how a round of hooks can come out in which every
/// one of `backends` is told `notice`: one outcome for each backend, in the
/// order of the list.
pub open spec fn told<B: Backend>(backends: Seq<B>, notice: NoticeView, outcomes: Seq<bool>) -> bool {
    &&& outcomes.len() == backends.len()
    &&& forall|i: int|
        0 <= i < backends.len() ==> hook_returns(&backends[i], notice, #[trigger] outcomes[i])
}

/// Whether `taken` is how `queue` can answer when it is offered the records
/// of `outbox` that are meant for it, in their order.
pub open spec fn offered<Q: Queue>(queue: &Q, outbox: Seq<PersistView>, taken: Seq<bool>) -> bool {
    &&& taken.len() == outbox.len()
    &&& forall|i: int|
        0 <= i < outbox.len() ==> match outbox[i] {
            PersistView::Enqueue(record) => queue_returns(queue, record, #[trigger] taken[i]),
            PersistView::Local(_) => taken[i],
        }
}

/// The backend at this place of the list failed when the application was
/// started, and no observer was made.
#[derive(Clone, Copy, Debug, PartialEq, Eq, Structural)]
pub struct StartFailed {
    pub backend: usize,
}

/// The log root that is used where none is configured.
pub open spec fn default_log_root() -> Seq<char> {
    "/var/log/"@
}

/// The coordinator of one thread of execution: the backends, the context that
/// is active, if one is, and what has come of the spans that ended.
pub struct Observer<B: Backend> {
    backends: Vec<B>,
    context: Option<Context>,
    transient: Vec<Frame>,
    log_root: String,
    outbox: Vec<Persist>,
    journal: Vec<Diagnostic>,
}

/// The mathematical value of an [`Observer`].
pub struct ObserverView<B> {
    /// The backends, in the order in which they are told.
    pub backends: Seq<B>,
    /// The active context.
    pub context: Option<ContextView>,
    /// The spans that were opened while no context was active, and are kept
    /// for their timing alone; innermost last.
    pub transient: Seq<FrameView>,
    /// The directory below which the spans are saved that are not critical.
    pub log_root: Seq<char>,
    /// What is to be done with the outermost spans that have ended, oldest first.
    pub outbox: Seq<PersistView>,
    /// What went wrong inside the runtime, oldest first.
    pub journal: Seq<Diagnostic>,
}

/// The reports of the backends that failed in one round of hooks, where
/// `outcomes` says for each backend, in the order of the list, whether its
/// hook went well.
pub open spec fn backend_failures(outcomes: Seq<bool>) -> Seq<Diagnostic>
    decreases outcomes.len(),
{
    if outcomes.len() == 0 {
        Seq::empty()
    } else if outcomes.last() {
        backend_failures(outcomes.drop_last())
    } else {
        backend_failures(outcomes.drop_last()).push(
            Diagnostic::BackendFailed((outcomes.len() - 1) as usize),
        )
    }
}

/// The reports of the records that the queue refused, where `taken` says for
/// each entry of `outbox`, in its order, whether the queue took it; an entry
/// that is saved below the log root is not offered to the queue.
pub open spec fn queue_failures(outbox: Seq<PersistView>, taken: Seq<bool>) -> Seq<Diagnostic>
    decreases outbox.len(),
{
    if outbox.len() == 0 || taken.len() != outbox.len() {
        Seq::empty()
    } else if outbox.last() is Enqueue && !taken.last() {
        queue_failures(outbox.drop_last(), taken.drop_last()).push(Diagnostic::QueueRefused)
    } else {
        queue_failures(outbox.drop_last(), taken.drop_last())
    }
}

/// The savings below the log root among `outbox`, in their order.
pub open spec fn local_saves(outbox: Seq<PersistView>) -> Seq<LocalSaveView>
    decreases outbox.len(),
{
    if outbox.len() == 0 {
        Seq::empty()
    } else {
        match outbox.last() {
            PersistView::Local(save) => local_saves(outbox.drop_last()).push(save),
            PersistView::Enqueue(_) => local_saves(outbox.drop_last()),
        }
    }
}

impl<B: Backend> ObserverView<B> {
    /// The observer as it is made: nothing active, nothing noted.
    pub open spec fn initial(backends: Seq<B>, log_root: Seq<char>) -> ObserverView<B> {
        ObserverView {
            backends,
            context: None,
            transient: Seq::empty(),
            log_root,
            outbox: Seq::empty(),
            journal: Seq::empty(),
        }
    }

    /// This observer after a round of hooks that came out as `outcomes`: each
    /// failure is noted in the journal.
    pub open spec fn heard(self, outcomes: Seq<bool>) -> ObserverView<B> {
        ObserverView { journal: self.journal + backend_failures(outcomes), ..self }
    }

    /// This observer after a context was asked for under `id`: where none is
    /// active, one is made and the backends are told; else nothing happens.
    pub open spec fn context_created(self, id: Seq<char>, outcomes: Seq<bool>) -> ObserverView<B> {
        if self.context is Some {
            self
        } else {
            (ObserverView { context: Some(ContextView::fresh(id)), ..self }).heard(outcomes)
        }
    }

    /// This observer after the context was ended: the backends are told, and
    /// no context is active.
    pub open spec fn context_ended(self, outcomes: Seq<bool>) -> ObserverView<B> {
        (ObserverView { context: None, ..self }).heard(outcomes)
    }

    /// This observer after the span `frame` was opened: inside the active
    /// context, or on its own where none is active. The backends are told
    /// either way.
    pub open spec fn span_started(self, frame: FrameView, outcomes: Seq<bool>) -> ObserverView<B> {
        match self.context {
            Some(context) => (ObserverView {
                context: Some(context.started(frame)),
                ..self
            }).heard(outcomes),
            None => (ObserverView { transient: self.transient.push(frame), ..self }).heard(
                outcomes,
            ),
        }
    }

    /// This observer after the innermost open span was ended. In a context,
    /// the span goes into the span around it, and its record goes to the
    /// outbox for the queue where it is critical; the outermost goes to the
    /// outbox, for the queue or for the disk. Without one, the innermost span that is kept for its timing
    /// leaves. Where no span is open that is noted, and nothing else changes.
    /// The backends are told in each case.
    pub open spec fn span_ended(self, critical: bool, ending: Ending, outcomes: Seq<bool>) -> ObserverView<B> {
        match self.context {
            Some(context) => (ObserverView {
                context: Some(context.ended(ending)),
                outbox: match context.end_outcome(critical, ending) {
                    SpanEndView::Root { frame, critical } => self.outbox.push(
                        PersistView::of(frame, critical, self.log_root),
                    ),
                    SpanEndView::Attached { record: Some(record) } => self.outbox.push(
                        PersistView::Enqueue(record),
                    ),
                    _ => self.outbox,
                },
                journal: if context.depth() == 0 {
                    self.journal.push(Diagnostic::NoOpenSpan)
                } else {
                    self.journal
                },
                ..self
            }).heard(outcomes),
            None => if self.transient.len() > 0 {
                (ObserverView { transient: self.transient.drop_last(), ..self }).heard(outcomes)
            } else {
                (ObserverView {
                    journal: self.journal.push(Diagnostic::NoOpenSpan),
                    ..self
                }).heard(outcomes)
            },
        }
    }

    /// The span that ending the innermost span hands back: one that was kept
    /// for its timing alone, as it is once ended.
    pub open spec fn timed(self, ending: Ending) -> Option<FrameView> {
        if self.context is None && self.transient.len() > 0 {
            Some(ending.close(self.transient.last()))
        } else {
            None
        }
    }

    /// Whether `after` is this observer after a context was asked for under
    /// `id`: where none was active, every backend was told of the new one.
    pub open spec fn creates_context(self, id: Seq<char>, after: ObserverView<B>) -> bool {
        if self.context is Some {
            after == self
        } else {
            exists|outcomes: Seq<bool>|
                told(self.backends, NoticeView::ContextCreated(id), outcomes) && after
                    == #[trigger] self.context_created(id, outcomes)
        }
    }

    /// Whether `after` is this observer after its context was ended and every
    /// backend was told so.
    pub open spec fn ends_context(self, after: ObserverView<B>) -> bool {
        exists|outcomes: Seq<bool>|
            told(self.backends, NoticeView::ContextEnded, outcomes) && after
                == #[trigger] self.context_ended(outcomes)
    }

    /// Whether `after` is this observer after the span `frame` was opened and
    /// every backend was told of it.
    pub open spec fn opens_span(self, frame: FrameView, after: ObserverView<B>) -> bool {
        exists|outcomes: Seq<bool>|
            told(self.backends, NoticeView::SpanCreated(frame.id), outcomes) && after
                == #[trigger] self.span_started(frame, outcomes)
    }

    /// Whether `after` is this observer after a span was opened under the
    /// name `id`, with whatever key and at whatever moment, and every backend
    /// was told of it.
    pub open spec fn creates_span(self, id: Seq<char>, after: ObserverView<B>) -> bool {
        exists|frame: FrameView| frame.is_fresh(id) && #[trigger] self.opens_span(frame, after)
    }

    /// Whether `after` is this observer, and `timed` what is handed back,
    /// after the innermost span was ended by `ending` and every backend was
    /// told so.
    pub open spec fn closes_span(
        self,
        critical: bool,
        ending: Ending,
        after: ObserverView<B>,
        timed: Option<FrameView>,
    ) -> bool {
        &&& timed == self.timed(ending)
        &&& exists|outcomes: Seq<bool>|
            told(self.backends, NoticeView::SpanEnded, outcomes) && after
                == #[trigger] self.span_ended(critical, ending, outcomes)
    }

    /// Whether `after` is this observer, and `timed` what is handed back,
    /// after the innermost span was ended at some moment with the failure and
    /// the result given, and every backend was told so.
    pub open spec fn ends_span(
        self,
        critical: bool,
        error: Option<Seq<char>>,
        result: Option<crate::json::JsonView>,
        after: ObserverView<B>,
        timed: Option<FrameView>,
    ) -> bool {
        exists|at: Timestamp| #[trigger]
            self.closes_span(critical, Ending::new(error, result, at), after, timed)
    }

    /// This observer after its outbox was worked off, where `taken` says for
    /// each entry whether the queue took it: the outbox is empty, and each
    /// refusal is noted.
    pub open spec fn flushed(self, taken: Seq<bool>) -> ObserverView<B> {
        ObserverView {
            outbox: Seq::empty(),
            journal: self.journal + queue_failures(self.outbox, taken),
            ..self
        }
    }
}

impl<B: Backend> View for Observer<B> {
    type V = ObserverView<B>;

    closed spec fn view(&self) -> ObserverView<B> {
        ObserverView {
            backends: self.backends@,
            context: match self.context {
                Some(context) => Some(context@),
                None => None,
            },
            transient: Seq::new(
                self.transient@.len(),
                |i: int|
                    if 0 <= i < self.transient@.len() {
                        self.transient@[i]@
                    } else {
                        arbitrary()
                    },
            ),
            log_root: self.log_root@,
            outbox: Seq::new(
                self.outbox@.len(),
                |i: int|
                    if 0 <= i < self.outbox@.len() {
                        self.outbox@[i]@
                    } else {
                        arbitrary()
                    },
            ),
            journal: self.journal@,
        }
    }
}

/// The views of `saves`, in their order.
pub open spec fn save_views(saves: Seq<LocalSave>) -> Seq<LocalSaveView> {
    Seq::new(saves.len(), |i: int| saves[i]@)
}

/// The views of `plans`, in their order.
pub open spec fn persist_views(plans: Seq<Persist>) -> Seq<PersistView> {
    Seq::new(plans.len(), |i: int| plans[i]@)
}

/// The log root to use: the configured one, or `/var/log/` where none is configured.
pub fn log_dir(configured: Option<String>) -> (root: String)
    ensures
        root@ == match configured {
            Some(dir) => dir@,
            None => default_log_root(),
        },
{
    match configured {
        Some(dir) => dir,
        None => "/var/log/".to_owned(),
    }
}

/// The text that `format!` writes for `text` under `{:?}`: `text` between
/// double quotes, with the characters escaped that a string literal has to
/// escape.
pub uninterp spec fn debug_text(text: Seq<char>) -> Seq<char>;

/// `text` as `format!("{:?}", ..)` writes it. Trusted: the result is a
/// function of the text alone, named [`debug_text`].
#[verifier::external_body]
fn quoted(text: &str) -> (shown: String)
    ensures
        shown@ == debug_text(text@),
{
    format!("{:?}", text)
}

/// The line that tells the log root, where `shown` is the root as it is to
/// appear in it.
pub fn path_notice(shown: &str) -> (line: String)
    ensures
        line@ == "OBSERVER LOGDIR "@ + shown@,
{
    let mut line = "OBSERVER LOGDIR ".to_owned();
    line.append(shown);
    line
}

/// The line that tells which log root is in use: the words `OBSERVER LOGDIR`
/// and the root, quoted.
pub fn check_path(log_dir: &str) -> (line: String)
    ensures
        line@ == "OBSERVER LOGDIR "@ + debug_text(log_dir@),
{
    let shown = quoted(log_dir);
    path_notice(shown.as_str())
}

impl<B: Backend> Observer<B> {
    /// Makes an observer with the backends given and tells each of them, in
    /// the order of the list, that the application has started. The first
    /// backend that fails ends this: no observer is made, and the backends
    /// behind it are not told.
    pub fn new(backends: Vec<B>) -> (made: Result<Observer<B>, StartFailed>)
        ensures
            match made {
                Ok(observer) => {
                    &&& observer@ == ObserverView::initial(backends@, default_log_root())
                    &&& forall|i: int|
                        0 <= i < backends@.len() ==> hook_returns(
                            &#[trigger] backends@[i],
                            NoticeView::AppStarted,
                            true,
                        )
                },
                Err(failure) => {
                    &&& failure.backend < backends@.len()
                    &&& hook_returns(
                        &backends@[failure.backend as int],
                        NoticeView::AppStarted,
                        false,
                    )
                    &&& forall|i: int|
                        0 <= i < failure.backend ==> hook_returns(
                            &#[trigger] backends@[i],
                            NoticeView::AppStarted,
                            true,
                        )
                },
            },
    {
        let mut i: usize = 0;
        while i < backends.len()
            invariant
                i <= backends.len(),
                forall|j: int|
                    0 <= j < i ==> hook_returns(
                        &#[trigger] backends@[j],
                        NoticeView::AppStarted,
                        true,
                    ),
            decreases backends.len() - i,
        {
            if !backends[i].app_started() {
                return Err(StartFailed { backend: i });
            }
            i = i + 1;
        }
        let observer = Observer {
            backends,
            context: None,
            transient: Vec::new(),
            log_root: log_dir(None),
            outbox: Vec::new(),
            journal: Vec::new(),
        };
        proof {
            assert(observer@.transient =~= Seq::empty());
            assert(observer@.outbox =~= Seq::empty());
            assert(observer@.journal =~= Seq::empty());
        }
        Ok(observer)
    }

    /// Sets the directory below which the spans are saved that are not critical.
    pub fn set_log_root(&mut self, log_root: String)
        ensures
            final(self)@ == (ObserverView { log_root: log_root@, ..old(self)@ }),
    {
        self.log_root = log_root;
        proof {
            assert(self@.transient =~= old(self)@.transient);
            assert(self@.outbox =~= old(self)@.outbox);
        }
    }

    /// Tells every backend `notice`, in the order of the list. A backend that
    /// fails is noted in the journal, and the ones behind it are told all the same.
    pub fn notify(&mut self, notice: &Notice)
        ensures
            exists|outcomes: Seq<bool>|
                told(old(self)@.backends, notice@, outcomes) && final(self)@ == #[trigger] old(
                    self,
                )@.heard(outcomes),
    {
        let ghost mut outcomes: Seq<bool> = Seq::empty();
        let mut i: usize = 0;
        proof {
            assert(self.journal@ + backend_failures(outcomes) =~= self.journal@);
        }
        while i < self.backends.len()
            invariant
                i <= self.backends.len(),
                outcomes.len() == i,
                forall|j: int|
                    0 <= j < i ==> hook_returns(
                        &self.backends@[j],
                        notice@,
                        #[trigger] outcomes[j],
                    ),
                self.backends == old(self).backends,
                self.context == old(self).context,
                self.transient == old(self).transient,
                self.log_root == old(self).log_root,
                self.outbox == old(self).outbox,
                self.journal@ == old(self).journal@ + backend_failures(outcomes),
            decreases self.backends.len() - i,
        {
            let ok = match notice {
                Notice::AppStarted => self.backends[i].app_started(),
                Notice::AppEnded => self.backends[i].app_ended(),
                Notice::ContextCreated(id) => self.backends[i].context_created(id.as_str()),
                Notice::ContextEnded => self.backends[i].context_ended(),
                Notice::SpanCreated(id) => self.backends[i].span_created(id.as_str()),
                Notice::SpanData(key, value) => self.backends[i].span_data(
                    key.as_str(),
                    value.as_str(),
                ),
                Notice::SpanEnded => self.backends[i].span_ended(),
            };
            proof {
                assert(hook_returns(&self.backends@[i as int], notice@, ok));
                let before = outcomes;
                outcomes = outcomes.push(ok);
                assert(outcomes.drop_last() =~= before);
                assert forall|j: int| 0 <= j <= i implies hook_returns(
                    &self.backends@[j],
                    notice@,
                    #[trigger] outcomes[j],
                ) by {
                    if j < i {
                        assert(outcomes[j] == before[j]);
                    }
                }
            }
            if !ok {
                self.journal.push(Diagnostic::BackendFailed(i));
                proof {
                    assert(self.journal@ =~= old(self).journal@ + backend_failures(outcomes));
                }
            }
            i = i + 1;
        }
        proof {
            assert(told(old(self)@.backends, notice@, outcomes));
            assert(self@ == old(self)@.heard(outcomes));
        }
    }

    /// Makes a context under `context_id` and tells the backends, where no
    /// context is active. Where one is, nothing happens.
    pub fn create_context(&mut self, context_id: &str)
        ensures
            old(self)@.creates_context(context_id@, final(self)@),
    {
        if self.context.is_none() {
            self.context = Some(Context::new(context_id.to_owned()));
            let ghost made = self@;
            proof {
                assert(made.transient =~= old(self)@.transient);
                assert(made.outbox =~= old(self)@.outbox);
                assert(made == (ObserverView {
                    context: Some(ContextView::fresh(context_id@)),
                    ..old(self)@
                }));
            }
            let notice = Notice::ContextCreated(context_id.to_owned());
            self.notify(&notice);
            proof {
                let outcomes = choose|outcomes: Seq<bool>|
                    told(made.backends, notice@, outcomes) && self@ == #[trigger] made.heard(
                        outcomes,
                    );
                assert(self@ == old(self)@.context_created(context_id@, outcomes));
            }
        }
    }

    /// Tells the backends that the context has ended and lets go of it: the
    /// spans that follow start in a context of their own.
    pub fn end_context(&mut self)
        ensures
            old(self)@.ends_context(final(self)@),
    {
        self.notify(&Notice::ContextEnded);
        let ghost heard = self@;
        self.context = None;
        proof {
            let outcomes = choose|outcomes: Seq<bool>|
                told(old(self)@.backends, NoticeView::ContextEnded, outcomes) && heard
                    == #[trigger] old(self)@.heard(outcomes);
            assert(self@.transient =~= heard.transient);
            assert(self@.outbox =~= heard.outbox);
            assert(self@ == old(self)@.context_ended(outcomes));
        }
    }

    /// Opens a span under the name `id` and tells the backends: inside the
    /// active context, or, where none is active, on its own and for its timing
    /// alone.
    pub fn create_span(&mut self, id: &str)
        ensures
            old(self)@.creates_span(id@, final(self)@),
    {
        let frame = Frame::new(id.to_owned());
        let ghost opened = frame@;
        self.start_span(frame);
        assert(old(self)@.opens_span(opened, self@));
    }

    /// Opens a span under the name `id` and the key `key`, starting at `now`,
    /// and tells the backends.
    pub fn create_span_at(&mut self, id: &str, key: String, now: Timestamp)
        ensures
            old(self)@.opens_span(FrameView::fresh(id@, key@, now), final(self)@),
    {
        let frame = Frame::opened(id.to_owned(), key, now);
        self.start_span(frame);
    }

    /// Opens the span `frame` and tells the backends.
    fn start_span(&mut self, frame: Frame)
        ensures
            old(self)@.opens_span(frame@, final(self)@),
    {
        let notice = Notice::SpanCreated(frame.id().clone());
        self.open_span(frame);
        let ghost held = self@;
        self.notify(&notice);
        proof {
            let outcomes = choose|outcomes: Seq<bool>|
                told(held.backends, notice@, outcomes) && self@ == #[trigger] held.heard(outcomes);
            assert(self@ == old(self)@.span_started(frame@, outcomes));
        }
    }

    /// Opens the span `frame` without a word to the backends: inside the
    /// active context, or on its own where none is active.
    fn open_span(&mut self, frame: Frame)
        ensures
            final(self)@ == old(self)@.span_started(frame@, Seq::empty()),
    {
        proof {
            assert(self@.journal + backend_failures(Seq::empty()) =~= self@.journal);
        }
        let held = self.context.take();
        match held {
            Some(context) => {
                let mut context = context;
                context.push_span(frame);
                self.context = Some(context);
                proof {
                    assert(self@.transient =~= old(self)@.transient);
                    assert(self@.outbox =~= old(self)@.outbox);
                }
            },
            None => {
                self.transient.push(frame);
                proof {
                    assert(self@.transient =~= old(self)@.transient.push(frame@));
                    assert(self@.outbox =~= old(self)@.outbox);
                }
            },
        }
    }

    /// Sets the note `name` to `value` on the innermost open span of the
    /// active context. Returns whether there was such a span.
    pub fn add_breadcrumb(&mut self, name: &str, value: Json) -> (noted: bool)
        ensures
            noted == (old(self)@.context is Some && old(self)@.context->0.depth() > 0),
            final(self)@ == (ObserverView {
                context: match old(self)@.context {
                    Some(context) => Some(context.noted(name@, value@)),
                    None => None,
                },
                ..old(self)@
            }),
    {
        let held = self.context.take();
        match held {
            Some(context) => {
                let mut context = context;
                let noted = context.add_breadcrumb(name, value);
                self.context = Some(context);
                proof {
                    assert(self@.transient =~= old(self)@.transient);
                    assert(self@.outbox =~= old(self)@.outbox);
                }
                noted
            },
            None => {
                proof {
                    assert(self@.transient =~= old(self)@.transient);
                    assert(self@.outbox =~= old(self)@.outbox);
                }
                false
            },
        }
    }

    /// Ends the innermost open span now and tells the backends. The span has
    /// failed where `err` says why. See [`Observer::finish_span_at`] for what
    /// becomes of it.
    pub fn end_span(&mut self, is_critical: bool, err: Option<String>) -> (timed: Option<Frame>)
        ensures
            old(self)@.ends_span(is_critical, opt_text(err), None, final(self)@, opt_frame(timed)),
    {
        self.finish_span(is_critical, err, None)
    }

    /// Ends the innermost open span now and tells the backends. The span has
    /// failed where `err` says why; else it has returned `result`. See
    /// [`Observer::finish_span_at`] for what becomes of it.
    pub fn finish_span(&mut self, is_critical: bool, err: Option<String>, result: Option<Json>) -> (timed:
        Option<Frame>)
        ensures
            old(self)@.ends_span(
                is_critical,
                opt_text(err),
                opt_view(result),
                final(self)@,
                opt_frame(timed),
            ),
    {
        let at = now();
        let timed = self.finish_span_at(is_critical, err, result, at);
        proof {
            assert(old(self)@.closes_span(
                is_critical,
                Ending::new(opt_text(err), opt_view(result), at),
                self@,
                opt_frame(timed),
            ));
        }
        timed
    }

    /// Ends the innermost open span at `now` and tells the backends. In a
    /// context, a span that ended inside another goes into that one, and
    /// where it is critical its record goes to the outbox for the queue as
    /// well; the outermost goes to the outbox, to be stored as `is_critical`
    /// says.
    /// Without a context, the innermost span that was kept for its timing is
    /// handed back, ended. Where no span is open, that is noted in the journal
    /// and nothing else changes.
    pub fn finish_span_at(
        &mut self,
        is_critical: bool,
        err: Option<String>,
        result: Option<Json>,
        now: Timestamp,
    ) -> (timed: Option<Frame>)
        ensures
            old(self)@.closes_span(
                is_critical,
                Ending::new(opt_text(err), opt_view(result), now),
                final(self)@,
                opt_frame(timed),
            ),
    {
        let ghost ending = Ending::new(opt_text(err), opt_view(result), now);
        let timed = self.close_span(is_critical, err, result, now);
        let ghost held = self@;
        self.notify(&Notice::SpanEnded);
        proof {
            let outcomes = choose|outcomes: Seq<bool>|
                told(held.backends, NoticeView::SpanEnded, outcomes) && self@
                    == #[trigger] held.heard(outcomes);
            assert(held.journal + backend_failures(Seq::empty()) =~= held.journal);
            assert(self@ == old(self)@.span_ended(is_critical, ending, outcomes));
        }
        timed
    }

    /// Ends the innermost open span at `now` without a word to the backends.
    fn close_span(
        &mut self,
        is_critical: bool,
        err: Option<String>,
        result: Option<Json>,
        now: Timestamp,
    ) -> (timed: Option<Frame>)
        ensures
            final(self)@ == old(self)@.span_ended(
                is_critical,
                Ending::new(opt_text(err), opt_view(result), now),
                Seq::empty(),
            ),
            opt_frame(timed) == old(self)@.timed(
                Ending::new(opt_text(err), opt_view(result), now),
            ),
    {
        let ghost ending = Ending::new(opt_text(err), opt_view(result), now);
        proof {
            assert(forall|journal: Seq<Diagnostic>|
                journal + backend_failures(Seq::empty()) =~= journal);
        }
        let held = self.context.take();
        match held {
            Some(context) => {
                let mut context = context;
                let end = context.end_span_at(is_critical, err, result, now);
                self.context = Some(context);
                match end {
                    SpanEnd::NoOpenSpan => {
                        self.journal.push(Diagnostic::NoOpenSpan);
                        proof {
                            assert(self@.transient =~= old(self)@.transient);
                            assert(self@.outbox =~= old(self)@.outbox);
                        }
                    },
                    SpanEnd::Attached { record: None } => {
                        proof {
                            assert(self@.transient =~= old(self)@.transient);
                            assert(self@.outbox =~= old(self)@.outbox);
                        }
                    },
                    SpanEnd::Attached { record: Some(record) } => {
                        let plan = Persist::Enqueue(record);
                        self.outbox.push(plan);
                        proof {
                            assert(self@.transient =~= old(self)@.transient);
                            assert(self@.outbox =~= old(self)@.outbox.push(plan@));
                        }
                    },
                    SpanEnd::Root { frame, critical } => {
                        let plan = frame.persist(critical, self.log_root.as_str());
                        self.outbox.push(plan);
                        proof {
                            assert(self@.transient =~= old(self)@.transient);
                            assert(self@.outbox =~= old(self)@.outbox.push(plan@));
                        }
                    },
                }
                None
            },
            None => {
                match self.transient.pop() {
                    Some(frame) => {
                        let mut frame = frame;
                        frame.close(err, result, now);
                        proof {
                            assert(self@.transient =~= old(self)@.transient.drop_last());
                            assert(self@.outbox =~= old(self)@.outbox);
                        }
                        Some(frame)
                    },
                    None => {
                        self.journal.push(Diagnostic::NoOpenSpan);
                        proof {
                            assert(self@.transient =~= old(self)@.transient);
                            assert(self@.outbox =~= old(self)@.outbox);
                        }
                        None
                    },
                }
            },
        }
    }

    /// The active context.
    pub fn context(&self) -> (context: Option<&Context>)
        ensures
            match context {
                Some(c) => self@.context == Some(c@),
                None => self@.context is None,
            },
    {
        self.context.as_ref()
    }

    /// The backends, in the order in which they are told.
    pub fn backends(&self) -> (backends: &Vec<B>)
        ensures
            backends@ == self@.backends,
    {
        &self.backends
    }

    /// How many backends are registered.
    pub fn backend_count(&self) -> (n: usize)
        ensures
            n == self@.backends.len(),
    {
        self.backends.len()
    }

    /// The directory below which the spans are saved that are not critical.
    pub fn log_root(&self) -> (root: &String)
        ensures
            root@ == self@.log_root,
    {
        &self.log_root
    }

    /// What went wrong inside the runtime since the journal was last taken.
    pub fn journal(&self) -> (journal: &Vec<Diagnostic>)
        ensures
            journal@ == self@.journal,
    {
        &self.journal
    }

    /// Takes the journal, and leaves an empty one.
    pub fn take_journal(&mut self) -> (journal: Vec<Diagnostic>)
        ensures
            journal@ == old(self)@.journal,
            final(self)@ == (ObserverView { journal: Seq::empty(), ..old(self)@ }),
    {
        let mut journal: Vec<Diagnostic> = Vec::new();
        std::mem::swap(&mut journal, &mut self.journal);
        proof {
            assert(self@.transient =~= old(self)@.transient);
            assert(self@.outbox =~= old(self)@.outbox);
            assert(self@.journal =~= Seq::empty());
        }
        journal
    }

    /// How many finished spans wait in the outbox.
    pub fn outbox_len(&self) -> (n: usize)
        ensures
            n == self@.outbox.len(),
    {
        self.outbox.len()
    }

    /// Takes what is to be done with the finished spans, and leaves nothing to do.
    pub fn take_outbox(&mut self) -> (outbox: Vec<Persist>)
        ensures
            persist_views(outbox@) == old(self)@.outbox,
            final(self)@ == (ObserverView { outbox: Seq::empty(), ..old(self)@ }),
    {
        let mut outbox: Vec<Persist> = Vec::new();
        std::mem::swap(&mut outbox, &mut self.outbox);
        proof {
            assert(self@.transient =~= old(self)@.transient);
            assert(self@.outbox =~= Seq::empty());
            assert(persist_views(outbox@) =~= old(self)@.outbox);
        }
        outbox
    }

    /// Works the outbox off as far as that goes without the disk: each record
    /// of a critical span is handed to `queue`, in the order in which the spans
    /// ended, and a refusal is noted in the journal. The savings below the log
    /// root are handed back, in their order, for whoever holds the disk.
    pub fn flush<Q: Queue>(&mut self, queue: &Q) -> (saves: Vec<LocalSave>)
        ensures
            save_views(saves@) == local_saves(old(self)@.outbox),
            exists|taken: Seq<bool>|
                offered(queue, old(self)@.outbox, taken) && final(self)@ == #[trigger] old(
                    self,
                )@.flushed(taken),
    {
        let mut outbox: Vec<Persist> = Vec::new();
        std::mem::swap(&mut outbox, &mut self.outbox);
        let ghost plans = old(self)@.outbox;
        let mut saves: Vec<LocalSave> = Vec::new();
        let ghost mut taken: Seq<bool> = Seq::empty();
        let n = outbox.len();
        let mut rest: Vec<Persist> = Vec::new();
        // The entries are taken from the back; `rest` turns them round.
        while outbox.len() > 0
            invariant
                outbox@.len() + rest@.len() == n,
                forall|i: int| 0 <= i < outbox@.len() ==> (#[trigger] outbox@[i])@ == plans[i],
                forall|i: int| 0 <= i < rest@.len() ==> (#[trigger] rest@[i])@ == plans[n - 1 - i],
                n == plans.len(),
            decreases outbox.len(),
        {
            match outbox.pop() {
                Some(plan) => {
                    rest.push(plan);
                },
                None => {},
            }
        }
        let mut done: usize = 0;
        proof {
            assert(plans.subrange(0, 0) =~= Seq::empty());
            assert(self.journal@ + queue_failures(plans.subrange(0, 0), taken) =~= self.journal@);
            assert(save_views(saves@) =~= local_saves(plans.subrange(0, 0)));
        }
        while rest.len() > 0
            invariant
                done + rest@.len() == n,
                n == plans.len(),
                taken.len() == done,
                offered(queue, plans.subrange(0, done as int), taken),
                forall|i: int| 0 <= i < rest@.len() ==> (#[trigger] rest@[i])@ == plans[n - 1 - i],
                save_views(saves@) == local_saves(plans.subrange(0, done as int)),
                self.backends == old(self).backends,
                self.context == old(self).context,
                self.transient == old(self).transient,
                self.log_root == old(self).log_root,
                self.outbox@.len() == 0,
                self.journal@ == old(self).journal@ + queue_failures(
                    plans.subrange(0, done as int),
                    taken,
                ),
            decreases rest.len(),
        {
            let ghost before = plans.subrange(0, done as int);
            let ghost upto = plans.subrange(0, done + 1);
            let ghost taken_before = taken;
            proof {
                assert(upto.drop_last() =~= before);
                assert(upto.last() == plans[done as int]);
            }
            match rest.pop() {
                Some(plan) => {
                    assert(plan@ == plans[done as int]);
                    let left = plan.deliver(queue);
                    let refused = left.1;
                    proof {
                        taken = taken.push(!refused);
                        assert(taken.drop_last() =~= taken_before);
                        assert forall|i: int| 0 <= i < upto.len() implies match upto[i] {
                            PersistView::Enqueue(record) => queue_returns(
                                queue,
                                record,
                                #[trigger] taken[i],
                            ),
                            PersistView::Local(_) => taken[i],
                        } by {
                            if i < done {
                                assert(upto[i] == before[i]);
                                assert(taken[i] == taken_before[i]);
                            }
                        }
                    }
                    match left.0 {
                        Some(save) => {
                            saves.push(save);
                            proof {
                                assert(save_views(saves@) =~= local_saves(before).push(save@));
                            }
                        },
                        None => {
                            if refused {
                                self.journal.push(Diagnostic::QueueRefused);
                            }
                            proof {
                                assert(self.journal@ =~= old(self).journal@ + queue_failures(
                                    upto,
                                    taken,
                                ));
                            }
                        },
                    }
                    done = done + 1;
                },
                None => {},
            }
        }
        proof {
            assert(plans.subrange(0, n as int) =~= plans);
            assert(self@.transient =~= old(self)@.transient);
            assert(self@.outbox =~= Seq::empty());
            assert(self@ == old(self)@.flushed(taken));
        }
        saves
    }
}

/// The view of a span that may be absent.
pub open spec fn opt_frame(frame: Option<Frame>) -> Option<FrameView> {
    match frame {
        Some(f) => Some(f@),
        None => None,
    }
}

/// The view of an observer that may be absent.
pub open spec fn opt_observer<B: Backend>(observer: Option<Observer<B>>) -> Option<ObserverView<B>> {
    match observer {
        Some(o) => Some(o@),
        None => None,
    }
}

/// Puts a new observer with the backends given into `slot`, in place of the
/// one that may be there. Where a backend fails at the start, the slot stays
/// as it is.
pub fn create_observer<B: Backend>(slot: &mut Option<Observer<B>>, backends: Vec<B>) -> (made:
    Result<(), StartFailed>)
    ensures
        match made {
            Ok(_) => {
                &&& opt_observer(*final(slot)) == Some(
                    ObserverView::initial(backends@, default_log_root()),
                )
                &&& forall|i: int|
                    0 <= i < backends@.len() ==> hook_returns(
                        &#[trigger] backends@[i],
                        NoticeView::AppStarted,
                        true,
                    )
            },
            Err(failure) => {
                &&& *final(slot) == *old(slot)
                &&& failure.backend < backends@.len()
                &&& hook_returns(
                    &backends@[failure.backend as int],
                    NoticeView::AppStarted,
                    false,
                )
                &&& forall|i: int|
                    0 <= i < failure.backend ==> hook_returns(
                        &#[trigger] backends@[i],
                        NoticeView::AppStarted,
                        true,
                    )
            },
        },
{
    match Observer::new(backends) {
        Ok(observer) => {
            *slot = Some(observer);
            Ok(())
        },
        Err(failure) => Err(failure),
    }
}

/// Asks the observer in `slot` for a context under `context_id`. An empty
/// slot stays empty.
pub fn create_context<B: Backend>(slot: &mut Option<Observer<B>>, context_id: &str)
    ensures
        match opt_observer(*old(slot)) {
            Some(observer) => *final(slot) is Some && observer.creates_context(
                context_id@,
                opt_observer(*final(slot))->0,
            ),
            None => *final(slot) is None,
        },
{
    let held = slot.take();
    match held {
        Some(observer) => {
            let mut observer = observer;
            observer.create_context(context_id);
            *slot = Some(observer);
        },
        None => {},
    }
}

/// Ends the context of the observer in `slot`. An empty slot stays empty.
pub fn end_context<B: Backend>(slot: &mut Option<Observer<B>>)
    ensures
        match opt_observer(*old(slot)) {
            Some(observer) => *final(slot) is Some && observer.ends_context(
                opt_observer(*final(slot))->0,
            ),
            None => *final(slot) is None,
        },
{
    let held = slot.take();
    match held {
        Some(observer) => {
            let mut observer = observer;
            observer.end_context();
            *slot = Some(observer);
        },
        None => {},
    }
}

/// Ending a span where none is open is noted, and nothing else changes: no
/// context is touched, and nothing is put up to be stored.
pub proof fn lemma_end_without_span_changes_nothing<B: Backend>(
    before: ObserverView<B>,
    critical: bool,
    ending: Ending,
    after: ObserverView<B>,
    timed: Option<FrameView>,
)
    requires
        before.closes_span(critical, ending, after, timed),
        before.context matches Some(context) ==> context.depth() == 0,
        before.context is None ==> before.transient.len() == 0,
    ensures
        timed is None,
        after.context == before.context,
        after.transient == before.transient,
        after.outbox == before.outbox,
        after.backends == before.backends,
        after.log_root == before.log_root,
        exists|outcomes: Seq<bool>|
            told(before.backends, NoticeView::SpanEnded, outcomes) && after.journal
                == before.journal.push(Diagnostic::NoOpenSpan) + #[trigger] backend_failures(
                outcomes,
            ),
{
    let outcomes = choose|outcomes: Seq<bool>|
        told(before.backends, NoticeView::SpanEnded, outcomes) && after
            == #[trigger] before.span_ended(critical, ending, outcomes);
    assert(after.journal == before.journal.push(Diagnostic::NoOpenSpan) + backend_failures(
        outcomes,
    ));
}

/// The reports of a round of hooks name the backends that failed, and no
/// others, each once and in the order of the list.
pub proof fn lemma_backend_failures(outcomes: Seq<bool>)
    requires
        outcomes.len() <= usize::MAX,
    ensures
        backend_failures(outcomes).len() <= outcomes.len(),
        forall|k: int|
            0 <= k < backend_failures(outcomes).len() ==> (#[trigger] backend_failures(
                outcomes,
            )[k]) is BackendFailed && backend_failures(outcomes)[k]->BackendFailed_0
                < outcomes.len() && !outcomes[backend_failures(outcomes)[k]->BackendFailed_0 as int],
        forall|k: int, l: int|
            0 <= k < l < backend_failures(outcomes).len() ==> (#[trigger] backend_failures(
                outcomes,
            )[k])->BackendFailed_0 < (#[trigger] backend_failures(outcomes)[l])->BackendFailed_0,
        forall|i: int|
            0 <= i < outcomes.len() && !outcomes[i] ==> backend_failures(outcomes).contains(
                Diagnostic::BackendFailed(i as usize),
            ),
    decreases outcomes.len(),
{
    if outcomes.len() > 0 {
        let shorter = outcomes.drop_last();
        lemma_backend_failures(shorter);
        let all = backend_failures(outcomes);
        let most = backend_failures(shorter);
        assert forall|i: int| 0 <= i < outcomes.len() && !outcomes[i] implies all.contains(
            Diagnostic::BackendFailed(i as usize),
        ) by {
            if i < shorter.len() {
                assert(!shorter[i]);
                let k = choose|k: int|
                    0 <= k < most.len() && most[k] == Diagnostic::BackendFailed(i as usize);
                assert(all[k] == Diagnostic::BackendFailed(i as usize));
            } else {
                assert(all[all.len() - 1] == Diagnostic::BackendFailed(i as usize));
            }
        }
        assert forall|k: int| 0 <= k < all.len() implies (#[trigger] all[k]) is BackendFailed
            && all[k]->BackendFailed_0 < outcomes.len() && !outcomes[all[k]->BackendFailed_0 as int] by {
            if k < most.len() {
                assert(all[k] == most[k]);
                assert(!shorter[most[k]->BackendFailed_0 as int]);
            }
        }
        assert forall|k: int, l: int| 0 <= k < l < all.len() implies (#[trigger] all[k])->BackendFailed_0 < (
        #[trigger] all[l])->BackendFailed_0 by {
            assert(all[k] == most[k]);
            if l < most.len() {
                assert(all[l] == most[l]);
            }
        }
    }
}

} // verus!
