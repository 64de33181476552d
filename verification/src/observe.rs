//! The entry point at an instrumented call site: a piece of work is run
//! inside a span of its own, and the span is ended as the work came out.

use vstd::prelude::*;
use crate::clock::Timestamp;
use crate::frame::opt_view;
use crate::frame::Ending;
use crate::frame::FrameView;
use crate::json::Json;
use crate::Backend;
use crate::Observer;
use crate::ObserverView;

verus! {

/// What observed work may return: it says what is kept of it as the result
/// of the span.
pub trait Resulty {
    /// The value to keep as the result of the span; none unless the type says otherwise.
    fn to_json(&self) -> (kept: Option<Json>)
        default_ensures
            kept is None,
    {
        None
    }
}

/// What observed work may fail with: it says what is noted of the failure.
pub trait Failure {
    /// The reason of the failure, in words.
    fn message(&self) -> String;
}

impl Resulty for Json {
    fn to_json(&self) -> (kept: Option<Json>)
        ensures
            opt_view(kept) == Some(self@),
    {
        Some(self.duplicate())
    }
}

impl Resulty for i64 {
    fn to_json(&self) -> (kept: Option<Json>)
        ensures
            kept == Some(Json::Int(*self)),
    {
        Some(Json::Int(*self))
    }
}

impl Resulty for bool {
    fn to_json(&self) -> (kept: Option<Json>)
        ensures
            kept == Some(Json::Bool(*self)),
    {
        Some(Json::Bool(*self))
    }
}

impl Resulty for String {
    fn to_json(&self) -> (kept: Option<Json>)
        ensures
            kept == Some(Json::Str(*self)),
    {
        Some(Json::Str(self.clone()))
    }
}

impl Resulty for () {
    fn to_json(&self) -> (kept: Option<Json>)
        ensures
            kept is None,
    {
        None
    }
}

impl Failure for String {
    fn message(&self) -> (reason: String)
        ensures
            reason@ == self@,
    {
        self.clone()
    }
}

/// Whether `after` is the observer `before` once a context has been seen to
/// under `context_id` and a span has been opened under the name `span_id`.
pub open spec fn begins<B: Backend>(
    before: ObserverView<B>,
    context_id: Seq<char>,
    span_id: Seq<char>,
    after: ObserverView<B>,
) -> bool {
    exists|ready: ObserverView<B>| #[trigger]
        before.creates_context(context_id, ready) && ready.creates_span(span_id, after)
}

/// Whether `after` is the observer `before` once its innermost span has been
/// ended as `outcome` asks: as a success with what the value gives as its
/// result, or as a failure with the reason that the failure gives.
pub open spec fn finishes<B: Backend, T: Resulty, E: Failure>(
    before: ObserverView<B>,
    critical: bool,
    outcome: Result<T, E>,
    after: ObserverView<B>,
) -> bool {
    match outcome {
        Ok(value) => exists|kept: Option<Json>, timed: Option<FrameView>|
            call_ensures(T::to_json, (&value,), kept) && #[trigger] before.ends_span(
                critical,
                None,
                opt_view(kept),
                after,
                timed,
            ),
        Err(failure) => exists|reason: String, timed: Option<FrameView>|
            call_ensures(E::message, (&failure,), reason) && #[trigger] before.ends_span(
                critical,
                Some(reason@),
                None,
                after,
                timed,
            ),
    }
}

/// Once the work has been seen in, a context is active and its innermost
/// span is the one that was opened for the work: open, empty, under the name
/// given. Where no context was active before, the context is a new one under
/// the identifier given, and the span is its outermost.
pub proof fn lemma_begun_span_is_innermost<B: Backend>(
    before: ObserverView<B>,
    context_id: Seq<char>,
    span_id: Seq<char>,
    after: ObserverView<B>,
)
    requires
        begins(before, context_id, span_id, after),
    ensures
        after.context is Some,
        after.context->0.depth() >= 1,
        after.context->0.stack.last().is_fresh(span_id),
        after.backends == before.backends,
        after.outbox == before.outbox,
        after.transient == before.transient,
        after.log_root == before.log_root,
        before.context is None ==> after.context->0.id == context_id && after.context->0.depth()
            == 1,
        before.context matches Some(context) ==> after.context->0 == context.started(
            after.context->0.stack.last(),
        ),
{
    let ready = choose|ready: ObserverView<B>| #[trigger]
        before.creates_context(context_id, ready) && ready.creates_span(span_id, after);
    assert(ready.context is Some && ready.backends == before.backends && ready.outbox
        == before.outbox && ready.transient == before.transient && ready.log_root
        == before.log_root && (before.context is Some ==> ready.context == before.context)
        && (before.context is None ==> ready.context == Some(
        crate::context::ContextView::fresh(context_id),
    ))) by {
        if before.context is None {
            let told = choose|outcomes: Seq<bool>|
                crate::told(
                    before.backends,
                    crate::NoticeView::ContextCreated(context_id),
                    outcomes,
                ) && ready == #[trigger] before.context_created(context_id, outcomes);
        }
    }
    let frame = choose|frame: FrameView|
        frame.is_fresh(span_id) && #[trigger] ready.opens_span(frame, after);
    let heard = choose|outcomes: Seq<bool>|
        crate::told(ready.backends, crate::NoticeView::SpanCreated(frame.id), outcomes) && after
            == #[trigger] ready.span_started(frame, outcomes);
    assert(after.context->0.stack.last() == frame);
}

/// How the work came out is what the span says that was innermost when the
/// work was done: it has succeeded exactly if there was no failure, it holds
/// the result of a success and nothing of a failure, and it is the same span
/// as before. The outermost span goes to the outbox, as one more entry, to be
/// stored as `critical` says; a span inside another goes into that one, behind
/// the spans that ended there before, and where it is critical its record goes
/// to the outbox as one more entry for the queue.
pub proof fn lemma_outcome_is_recorded<B: Backend>(
    before: ObserverView<B>,
    critical: bool,
    error: Option<Seq<char>>,
    result: Option<crate::json::JsonView>,
    after: ObserverView<B>,
    timed: Option<FrameView>,
) -> (closed: FrameView)
    requires
        before.ends_span(critical, error, result, after, timed),
        before.context is Some,
        before.context->0.depth() >= 1,
        !before.context->0.stack.last().closed(),
    ensures
        closed.closed(),
        closed.success == Some(error is None),
        closed.result == (if error is None {
            result
        } else {
            None
        }),
        closed.id == before.context->0.stack.last().id,
        closed.key == before.context->0.stack.last().key,
        closed.start_time == before.context->0.stack.last().start_time,
        closed.sub_frames == before.context->0.stack.last().sub_frames,
        timed is None,
        after.context is Some,
        after.context->0.depth() == before.context->0.depth() - 1,
        before.context->0.depth() == 1 ==> after.outbox == before.outbox.push(
            crate::persist::PersistView::of(closed, critical, before.log_root),
        ),
        before.context->0.depth() >= 2 ==> after.context->0.stack.last()
            == before.context->0.stack[before.context->0.depth() - 2].with_child(closed),
        before.context->0.depth() >= 2 && critical ==> after.outbox == before.outbox.push(
            crate::persist::PersistView::Enqueue(closed.record()),
        ),
        before.context->0.depth() >= 2 && !critical ==> after.outbox == before.outbox,
{
    let at = choose|at: Timestamp| #[trigger]
        before.closes_span(critical, Ending::new(error, result, at), after, timed);
    let ending = Ending::new(error, result, at);
    let outcomes = choose|outcomes: Seq<bool>|
        crate::told(before.backends, crate::NoticeView::SpanEnded, outcomes) && after
            == #[trigger] before.span_ended(critical, ending, outcomes);
    let context = before.context->0;
    context.closing(ending)
}

/// Runs `work` inside a span named `span_id`, in the active context or in a
/// new one under `context_id`. The span is ended when the work is done: as a
/// success that holds what the work returned, or as a failure that notes why.
/// What the work returned is handed back as it is, a failure too. The work is
/// given the observer, so that it can observe work of its own inside the span.
pub fn observe<B, T, E, F>(
    observer: &mut Observer<B>,
    context_id: &str,
    span_id: &str,
    critical: bool,
    work: F,
) -> (outcome: Result<T, E>) where
    B: Backend,
    T: Resulty,
    E: Failure,
    F: FnOnce(&mut Observer<B>) -> Result<T, E>,

    requires
        forall|inside: &mut Observer<B>|
            begins(old(observer)@, context_id@, span_id@, inside@) ==> #[trigger] work.requires(
                (inside,),
            ),
    ensures
        exists|inside: &mut Observer<B>|
            begins(old(observer)@, context_id@, span_id@, inside@) && #[trigger] work.ensures(
                (inside,),
                outcome,
            ) && finishes(final(inside)@, critical, outcome, final(observer)@),
{
    observer.create_context(context_id);
    let ghost ready = observer@;
    observer.create_span(span_id);
    assert(begins(old(observer)@, context_id@, span_id@, observer@)) by {
        assert(old(observer)@.creates_context(context_id@, ready));
    }
    let outcome = work(observer);
    let ghost done = observer@;
    match &outcome {
        Ok(value) => {
            let kept = value.to_json();
            let timed = observer.finish_span(critical, None, kept);
            assert(finishes(done, critical, outcome, observer@)) by {
                assert(done.ends_span(
                    critical,
                    None,
                    opt_view(kept),
                    observer@,
                    crate::opt_frame(timed),
                ));
            }
        },
        Err(failure) => {
            let reason = failure.message();
            let timed = observer.finish_span(critical, Some(reason), None);
            assert(finishes(done, critical, outcome, observer@)) by {
                assert(done.ends_span(
                    critical,
                    Some(reason@),
                    None,
                    observer@,
                    crate::opt_frame(timed),
                ));
            }
        },
    }
    outcome
}

} // verus!
