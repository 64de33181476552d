//! One logical execution and the spans that are open in it, innermost last.

use vstd::prelude::*;
use crate::clock::now;
use crate::clock::Timestamp;
use crate::frame::opt_text;
use crate::frame::opt_view;
use crate::frame::Ending;
use crate::frame::Frame;
use crate::frame::FrameView;
use crate::json::Json;
use crate::json::JsonView;

verus! {

/// The spans that are open in one execution.
#[derive(Debug, PartialEq, Eq)]
pub struct Context {
    id: String,
    stack: Vec<Frame>,
}

/// The mathematical value of a [`Context`].
pub struct ContextView {
    /// The identifier of the execution, as the caller gave it.
    pub id: Seq<char>,
    /// The open spans, innermost last.
    pub stack: Seq<FrameView>,
}

/// What became of a span that was to be ended.
#[derive(Debug, PartialEq, Eq)]
pub enum SpanEnd {
    /// No span was open: nothing was done.
    NoOpenSpan,
    /// The span ended inside another and was added to it. A critical span
    /// leaves its record here, to be handed to the queue.
    Attached { record: Option<Json> },
    /// The span was the outermost: here it is, finished, to be stored.
    Root { frame: Frame, critical: bool },
}

/// The mathematical value of a [`SpanEnd`].
pub enum SpanEndView {
    NoOpenSpan,
    Attached { record: Option<JsonView> },
    Root { frame: FrameView, critical: bool },
}

impl View for SpanEnd {
    type V = SpanEndView;

    open spec fn view(&self) -> SpanEndView {
        match self {
            SpanEnd::NoOpenSpan => SpanEndView::NoOpenSpan,
            SpanEnd::Attached { record } => SpanEndView::Attached { record: opt_view(*record) },
            SpanEnd::Root { frame, critical } => SpanEndView::Root {
                frame: frame@,
                critical: *critical,
            },
        }
    }
}

impl ContextView {
    /// The context that has just been made under the identifier `id`.
    pub open spec fn fresh(id: Seq<char>) -> ContextView {
        ContextView { id, stack: Seq::empty() }
    }

    /// How many spans are open.
    pub open spec fn depth(self) -> nat {
        self.stack.len()
    }

    /// This context with `frame` opened inside the innermost open span.
    pub open spec fn started(self, frame: FrameView) -> ContextView {
        ContextView { stack: self.stack.push(frame), ..self }
    }

    /// The innermost open span as it is once it has been ended by `ending`.
    pub open spec fn closing(self, ending: Ending) -> FrameView {
        ending.close(self.stack.last())
    }

    /// This context after its innermost span has been ended: the span leaves
    /// the stack, and goes into the span around it where there is one. With no
    /// span open the context stays as it is.
    pub open spec fn ended(self, ending: Ending) -> ContextView {
        if self.stack.len() == 0 {
            self
        } else if self.stack.len() == 1 {
            ContextView { stack: Seq::empty(), ..self }
        } else {
            let parent = self.stack[self.stack.len() - 2];
            ContextView {
                stack: self.stack.subrange(0, self.stack.len() - 2).push(
                    parent.with_child(self.closing(ending)),
                ),
                ..self
            }
        }
    }

    /// What comes of ending the innermost span: the outermost is handed back
    /// whole; a span inside another goes into that one, and where it is critical
    /// its record is handed back as well, for the queue.
    pub open spec fn end_outcome(self, critical: bool, ending: Ending) -> SpanEndView {
        if self.stack.len() == 0 {
            SpanEndView::NoOpenSpan
        } else if self.stack.len() == 1 {
            SpanEndView::Root { frame: self.closing(ending), critical }
        } else {
            SpanEndView::Attached {
                record: if critical {
                    Some(self.closing(ending).record())
                } else {
                    None
                },
            }
        }
    }

    /// This context with the note `name` set to `value` on its innermost open
    /// span; as it is where no span is open.
    pub open spec fn noted(self, name: Seq<char>, value: JsonView) -> ContextView {
        if self.stack.len() == 0 {
            self
        } else {
            ContextView {
                stack: self.stack.update(
                    self.stack.len() - 1,
                    self.stack.last().with_breadcrumb(name, value),
                ),
                ..self
            }
        }
    }
}

impl View for Context {
    type V = ContextView;

    closed spec fn view(&self) -> ContextView {
        ContextView {
            id: self.id@,
            stack: Seq::new(
                self.stack@.len(),
                |i: int|
                    if 0 <= i < self.stack@.len() {
                        self.stack@[i]@
                    } else {
                        arbitrary()
                    },
            ),
        }
    }
}

impl Context {
    /// A context with no span open.
    pub fn new(id: String) -> (context: Context)
        ensures
            context@ == ContextView::fresh(id@),
    {
        let context = Context { id, stack: Vec::new() };
        assert(context@.stack =~= Seq::empty());
        context
    }

    /// The identifier of the execution.
    pub fn id(&self) -> (id: &String)
        ensures
            id@ == self@.id,
    {
        &self.id
    }

    /// How many spans are open.
    pub fn depth(&self) -> (depth: usize)
        ensures
            depth == self@.depth(),
    {
        self.stack.len()
    }

    /// The innermost open span.
    pub fn top(&self) -> (top: Option<&Frame>)
        ensures
            self@.depth() == 0 ==> top is None,
            self@.depth() > 0 ==> top is Some && top->0@ == self@.stack.last(),
    {
        let n = self.stack.len();
        if n == 0 {
            None
        } else {
            Some(&self.stack[n - 1])
        }
    }

    /// The open span at the place `handle` of the stack, the outermost being at 0.
    pub fn span(&self, handle: usize) -> (span: Option<&Frame>)
        ensures
            handle >= self@.depth() ==> span is None,
            handle < self@.depth() ==> span is Some && span->0@ == self@.stack[handle as int],
    {
        if handle < self.stack.len() {
            Some(&self.stack[handle])
        } else {
            None
        }
    }

    /// Opens a span under the name `id` inside the innermost open span, with
    /// a new key, starting now. Returns its place in the stack.
    pub fn start_span(&mut self, id: &str) -> (handle: usize)
        ensures
            handle == old(self)@.depth(),
            final(self)@.depth() == handle + 1,
            final(self)@.stack.last().is_fresh(id@),
            final(self)@ == old(self)@.started(final(self)@.stack.last()),
    {
        let frame = Frame::new(id.to_owned());
        let handle = self.stack.len();
        self.stack.push(frame);
        assert(self@.stack =~= old(self)@.stack.push(frame@));
        handle
    }

    /// Puts the span `frame` inside the innermost open span. Returns its place
    /// in the stack.
    pub(crate) fn push_span(&mut self, frame: Frame) -> (handle: usize)
        ensures
            handle == old(self)@.depth(),
            final(self)@ == old(self)@.started(frame@),
    {
        let handle = self.stack.len();
        self.stack.push(frame);
        assert(self@.stack =~= old(self)@.stack.push(frame@));
        handle
    }

    /// Opens a span under the name `id` and the key `key` inside the innermost
    /// open span, starting at `now`. Returns its place in the stack.
    pub fn start_span_at(&mut self, id: &str, key: String, now: Timestamp) -> (handle: usize)
        ensures
            handle == old(self)@.depth(),
            final(self)@ == old(self)@.started(FrameView::fresh(id@, key@, now)),
    {
        let frame = Frame::opened(id.to_owned(), key, now);
        let handle = self.stack.len();
        self.stack.push(frame);
        assert(self@.stack =~= old(self)@.stack.push(frame@));
        handle
    }

    /// Sets the note `name` to `value` on the innermost open span. Returns
    /// whether a span was open.
    pub fn add_breadcrumb(&mut self, name: &str, value: Json) -> (noted: bool)
        ensures
            noted == (old(self)@.depth() > 0),
            final(self)@ == old(self)@.noted(name@, value@),
    {
        let n = self.stack.len();
        if n == 0 {
            return false;
        }
        self.stack[n - 1].add_breadcrumbs(name, value);
        assert(self@.stack =~= old(self)@.stack.update(
            n - 1,
            old(self)@.stack.last().with_breadcrumb(name@, value@),
        ));
        true
    }

    /// Ends the innermost open span now, as failed where `error` says why. A
    /// span that ended inside another is added to that one; the outermost is
    /// handed back, to be stored as `critical` says. With no span open nothing
    /// changes.
    pub fn end_span(&mut self, critical: bool, error: Option<String>) -> (end: SpanEnd)
        ensures
            exists|at: Timestamp|
                {
                    &&& final(self)@ == old(self)@.ended(
                        #[trigger] Ending::new(opt_text(error), None, at),
                    )
                    &&& end@ == old(self)@.end_outcome(
                        critical,
                        Ending::new(opt_text(error), None, at),
                    )
                },
    {
        let at = now();
        let end = self.end_span_at(critical, error, None, at);
        proof {
            let ending = Ending::new(opt_text(error), None, at);
            assert(self@ == old(self)@.ended(ending));
            assert(end@ == old(self)@.end_outcome(critical, ending));
        }
        end
    }

    /// Ends the innermost open span at `now`: as failed where `error` says
    /// why, else as a success that returned `result`. A span that ended inside
    /// another is added to that one; the outermost is handed back, to be stored
    /// as `critical` says. With no span open nothing changes.
    pub fn end_span_at(
        &mut self,
        critical: bool,
        error: Option<String>,
        result: Option<Json>,
        now: Timestamp,
    ) -> (end: SpanEnd)
        ensures
            final(self)@ == old(self)@.ended(Ending::new(opt_text(error), opt_view(result), now)),
            end@ == old(self)@.end_outcome(
                critical,
                Ending::new(opt_text(error), opt_view(result), now),
            ),
    {
        let ghost ending = Ending::new(opt_text(error), opt_view(result), now);
        match self.stack.pop() {
            None => {
                assert(self@.stack =~= old(self)@.stack);
                SpanEnd::NoOpenSpan
            },
            Some(frame) => {
                let mut frame = frame;
                assert(frame@ == old(self)@.stack.last());
                frame.close(error, result, now);
                assert(frame@ == old(self)@.closing(ending));
                let n = self.stack.len();
                if n == 0 {
                    assert(self@.stack =~= Seq::empty());
                    SpanEnd::Root { frame, critical }
                } else {
                    let record = if critical {
                        Some(frame.record())
                    } else {
                        None
                    };
                    self.stack[n - 1].add_sub_frame(frame);
                    assert(self@.stack =~= old(self)@.ended(ending).stack);
                    SpanEnd::Attached { record }
                }
            },
        }
    }
}

impl ContextView {
    /// The invariant of a context: every span on the stack is open and in order.
    pub open spec fn wf(self) -> bool {
        forall|i: int|
            0 <= i < self.stack.len() ==> !(#[trigger] self.stack[i]).closed()
                && self.stack[i].wf()
    }
}

/// One call on a context: a span is opened, or the innermost one is ended.
pub enum Step {
    Start(FrameView),
    End(Ending),
}

impl ContextView {
    /// This context after one call.
    pub open spec fn step(self, step: Step) -> ContextView {
        match step {
            Step::Start(frame) => self.started(frame),
            Step::End(ending) => self.ended(ending),
        }
    }

    /// This context after the calls `steps`, one after the other.
    pub open spec fn run(self, steps: Seq<Step>) -> ContextView
        decreases steps.len(),
    {
        if steps.len() == 0 {
            self
        } else {
            self.step(steps[0]).run(steps.subrange(1, steps.len() as int))
        }
    }

    /// Whether `steps` leaves the `base` outermost spans open: whenever a span
    /// is ended, more than `base` are open.
    pub open spec fn stays_inside(self, steps: Seq<Step>, base: nat) -> bool
        decreases steps.len(),
    {
        if steps.len() == 0 {
            true
        } else {
            &&& steps[0] is End ==> self.depth() > base
            &&& self.step(steps[0]).stays_inside(steps.subrange(1, steps.len() as int), base)
        }
    }

    /// The spans that `steps` ends directly inside the span at depth `base`,
    /// each as it was when it ended, in the order in which they ended.
    pub open spec fn ended_inside(self, steps: Seq<Step>, base: nat) -> Seq<FrameView>
        decreases steps.len(),
    {
        if steps.len() == 0 {
            Seq::empty()
        } else {
            let rest = self.step(steps[0]).ended_inside(
                steps.subrange(1, steps.len() as int),
                base,
            );
            match steps[0] {
                Step::End(ending) => if self.depth() == base + 1 {
                    seq![self.closing(ending)] + rest
                } else {
                    rest
                },
                Step::Start(_) => rest,
            }
        }
    }
}

/// Spans opened and ended inside an open span, innermost first out, leave in
/// that span exactly the ones that ended directly inside it, behind those it
/// held before and in the order in which they ended. Nothing else of that span
/// changes, and the spans around it stay as they were.
pub proof fn lemma_children_in_end_order(context: ContextView, steps: Seq<Step>, base: nat)
    requires
        1 <= base <= context.depth(),
        context.stays_inside(steps, base),
    ensures
        context.run(steps).depth() >= base,
        context.run(steps).id == context.id,
        context.run(steps).stack[base - 1] == (FrameView {
            sub_frames: context.stack[base - 1].sub_frames + context.ended_inside(steps, base),
            ..context.stack[base - 1]
        }),
        forall|i: int| 0 <= i < base - 1 ==> context.run(steps).stack[i] == context.stack[i],
    decreases steps.len(),
{
    let parent = context.stack[base - 1];
    if steps.len() == 0 {
        assert(parent.sub_frames + Seq::<FrameView>::empty() =~= parent.sub_frames);
    } else {
        let next = context.step(steps[0]);
        let rest = steps.subrange(1, steps.len() as int);
        let tail = next.ended_inside(rest, base);
        match steps[0] {
            Step::Start(frame) => {
                assert(next.stack[base - 1] == parent);
                assert forall|i: int| 0 <= i < base - 1 implies next.stack[i]
                    == context.stack[i] by {}
            },
            Step::End(ending) => {
                assert(context.depth() > base);
                if context.depth() == base + 1 {
                    let child = context.closing(ending);
                    assert(next.stack[base - 1] == parent.with_child(child));
                    assert(parent.sub_frames.push(child) + tail =~= parent.sub_frames + (seq![
                        child,
                    ] + tail));
                } else {
                    assert(next.stack[base - 1] == parent);
                }
                assert forall|i: int| 0 <= i < base - 1 implies next.stack[i]
                    == context.stack[i] by {}
            },
        }
        lemma_children_in_end_order(next, rest, base);
    }
}

/// A context that has just been made is in order, and every call keeps it in
/// order. The outermost span that comes out of it has ended and is in order:
/// every span inside it, at any depth, ended before it was handed on.
pub proof fn lemma_context_stays_in_order(context: ContextView, step: Step, critical: bool)
    requires
        context.wf(),
        step matches Step::Start(frame) ==> frame.is_fresh(frame.id),
    ensures
        context.step(step).wf(),
        forall|id: Seq<char>| (#[trigger] ContextView::fresh(id)).wf(),
        step matches Step::End(ending) ==> (context.end_outcome(critical, ending) matches SpanEndView::Root {
            frame,
            critical: c,
        } ==> frame.closed() && frame.wf() && c == critical),
{
    let after = context.step(step);
    match step {
        Step::Start(frame) => {
            crate::frame::lemma_calls_keep_the_invariant(
                frame,
                crate::frame::FrameOp::Start(frame.start_time),
            );
            assert(frame == FrameView::fresh(frame.id, frame.key, frame.start_time));
            assert forall|i: int| 0 <= i < after.stack.len() implies !(
            #[trigger] after.stack[i]).closed() && after.stack[i].wf() by {
                if i < context.stack.len() {
                    assert(after.stack[i] == context.stack[i]);
                }
            }
        },
        Step::End(ending) => {
            if context.stack.len() >= 1 {
                let top = context.stack.last();
                assert(top == context.stack[context.stack.len() - 1]);
                crate::frame::lemma_close_keeps_the_invariant(top, ending);
            }
            if context.stack.len() >= 2 {
                let n = context.stack.len();
                let parent = context.stack[n - 2];
                crate::frame::lemma_calls_keep_the_invariant(
                    parent,
                    crate::frame::FrameOp::Child(context.closing(ending)),
                );
                assert forall|i: int| 0 <= i < after.stack.len() implies !(
                #[trigger] after.stack[i]).closed() && after.stack[i].wf() by {
                    if i < n - 2 {
                        assert(after.stack[i] == context.stack[i]);
                    }
                }
            }
        },
    }
}

/// The outermost span, opened in a context with no span open and ended after
/// `inside`, comes out holding exactly the spans that ended directly inside it,
/// in the order in which they ended.
pub proof fn lemma_root_holds_children_in_end_order(
    context: ContextView,
    root: FrameView,
    inside: Seq<Step>,
    critical: bool,
    ending: Ending,
)
    requires
        context.depth() == 0,
        root.is_fresh(root.id),
        context.started(root).stays_inside(inside, 1),
        context.started(root).run(inside).depth() == 1,
    ensures
        context.started(root).run(inside).end_outcome(critical, ending) == (SpanEndView::Root {
            frame: ending.close(
                FrameView {
                    sub_frames: context.started(root).ended_inside(inside, 1),
                    ..root
                },
            ),
            critical,
        }),
        context.started(root).run(inside).ended(ending) == context,
        ending.close(
            FrameView { sub_frames: context.started(root).ended_inside(inside, 1), ..root },
        ).sub_frames == context.started(root).ended_inside(inside, 1),
{
    let begun = context.started(root);
    lemma_children_in_end_order(begun, inside, 1);
    let after = begun.run(inside);
    assert(begun.stack[0] == root);
    assert(root.sub_frames + begun.ended_inside(inside, 1) =~= begun.ended_inside(inside, 1));
    assert(after.stack.last() == after.stack[0]);
    assert(after.ended(ending).stack =~= context.stack);
}

} // verus!
