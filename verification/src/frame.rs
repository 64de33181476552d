//! One observed unit of work: who it is, when it ran, what was noted on it,
//! what ran inside it, and how it came out.

use vstd::prelude::*;
use crate::clock::now;
use crate::clock::Timestamp;
use crate::named::first_field;
use crate::named::lemma_absent;
use crate::named::lemma_first_is_index;
use crate::json::lemma_view_array;
use crate::json::lemma_view_object;
use crate::named::upsert;
use crate::json::Json;
use crate::json::JsonView;

verus! {

/// One span of observed work. The fields are reached through the methods;
/// [`FrameView`] is what the contracts speak of.
#[derive(Debug, PartialEq, Eq)]
pub struct Frame {
    id: String,
    key: String,
    breadcrumbs: Vec<(String, Json)>,
    success: Option<bool>,
    result: Option<Json>,
    start_time: Timestamp,
    end_time: Option<Timestamp>,
    sub_frames: Vec<Frame>,
}

/// The mathematical value of a [`Frame`].
pub struct FrameView {
    /// The name of the observed operation, as the caller gave it.
    pub id: Seq<char>,
    /// The identifier made for this one span.
    pub key: Seq<char>,
    /// The notes, in the order in which their names were first written.
    pub breadcrumbs: Seq<(Seq<char>, JsonView)>,
    /// How the work came out; absent while the span is open.
    pub success: Option<bool>,
    /// What the work returned, if anything.
    pub result: Option<JsonView>,
    pub start_time: Timestamp,
    /// Absent while the span is open.
    pub end_time: Option<Timestamp>,
    /// The spans that ran inside this one, in the order in which they ended.
    pub sub_frames: Seq<FrameView>,
}

impl FrameView {
    /// A span that has just been opened.
    pub open spec fn fresh(id: Seq<char>, key: Seq<char>, start_time: Timestamp) -> FrameView {
        FrameView {
            id,
            key,
            breadcrumbs: Seq::empty(),
            success: None,
            result: None,
            start_time,
            end_time: None,
            sub_frames: Seq::empty(),
        }
    }

    /// Whether this is a span that has just been opened under the name `id`,
    /// whatever its key and its starting time.
    pub open spec fn is_fresh(self, id: Seq<char>) -> bool {
        self == FrameView::fresh(id, self.key, self.start_time)
    }

    /// Whether the span has ended.
    pub open spec fn closed(self) -> bool {
        self.end_time is Some
    }

    /// The note called `name`, if there is one.
    pub open spec fn breadcrumb(self, name: Seq<char>) -> Option<JsonView> {
        first_field(self.breadcrumbs, name)
    }

    /// This span with the note `name` set to `value`.
    pub open spec fn with_breadcrumb(self, name: Seq<char>, value: JsonView) -> FrameView {
        FrameView { breadcrumbs: upsert(self.breadcrumbs, name, value), ..self }
    }

    /// This span with its start set to `now`.
    pub open spec fn restarted(self, now: Timestamp) -> FrameView {
        FrameView { start_time: now, ..self }
    }

    /// This span after an attempt to end it at `now`: an open span takes the
    /// outcome and the time, a closed one stays as it is.
    pub open spec fn ended(self, success: bool, result: Option<JsonView>, now: Timestamp) -> FrameView {
        if self.closed() {
            self
        } else {
            FrameView { success: Some(success), result, end_time: Some(now), ..self }
        }
    }

    /// This span with `child` added behind the spans that ended inside it before.
    pub open spec fn with_child(self, child: FrameView) -> FrameView {
        FrameView { sub_frames: self.sub_frames.push(child), ..self }
    }

    /// The invariant of a span: the outcome is there exactly when the end is,
    /// a result only with an end, no name is noted twice, and every span inside
    /// has ended and is itself in order.
    pub open spec fn wf(self) -> bool
        decreases self,
    {
        &&& self.success is Some <==> self.end_time is Some
        &&& self.result is Some ==> self.end_time is Some
        &&& crate::named::distinct_names(self.breadcrumbs)
        &&& forall|i: int|
            0 <= i < self.sub_frames.len() ==> (#[trigger] self.sub_frames[i]).closed()
                && self.sub_frames[i].wf()
    }

    /// The records of the spans that ended inside this one, in their order.
    pub open spec fn sub_records(self) -> Seq<JsonView>
        decreases self, 0nat,
    {
        Seq::new(
            self.sub_frames.len(),
            |i: int|
                if 0 <= i < self.sub_frames.len() {
                    self.sub_frames[i].record()
                } else {
                    JsonView::Null
                },
        )
    }

    /// The document that a span is stored as: one object with a field for each
    /// part of the span, the spans inside it written out in the same way.
    pub open spec fn record(self) -> JsonView
        decreases self, 1nat,
    {
        JsonView::Object(
            seq![
                ("id"@, JsonView::Str(self.id)),
                ("key"@, JsonView::Str(self.key)),
                ("breadcrumbs"@, JsonView::Object(self.breadcrumbs)),
                (
                    "success"@,
                    match self.success {
                        Some(b) => JsonView::Bool(b),
                        None => JsonView::Null,
                    },
                ),
                (
                    "result"@,
                    match self.result {
                        Some(value) => value,
                        None => JsonView::Null,
                    },
                ),
                ("start_time"@, self.start_time.record()),
                (
                    "end_time"@,
                    match self.end_time {
                        Some(t) => t.record(),
                        None => JsonView::Null,
                    },
                ),
                ("sub_frames"@, JsonView::Array(self.sub_records())),
            ],
        )
    }
}

/// How a span is ended: with what failure, if any, with what result, and when.
pub struct Ending {
    pub error: Option<Seq<char>>,
    pub result: Option<JsonView>,
    pub at: Timestamp,
}

impl Ending {
    /// The ending at the moment `at`, with the failure and the result given.
    pub open spec fn new(error: Option<Seq<char>>, result: Option<JsonView>, at: Timestamp) -> Ending {
        Ending { error, result, at }
    }

    /// `frame` as it is once it has been ended in this way: the span succeeded
    /// exactly if there is no failure, a result is kept only of a success, and
    /// the failure is noted under `error`. A span that has ended already stays
    /// as it is.
    pub open spec fn close(self, frame: FrameView) -> FrameView {
        if frame.closed() {
            frame
        } else {
            match self.error {
                None => frame.ended(true, self.result, self.at),
                Some(message) => frame.ended(false, None, self.at).with_breadcrumb(
                    "error"@,
                    JsonView::Str(message),
                ),
            }
        }
    }
}

impl View for Frame {
    type V = FrameView;

    closed spec fn view(&self) -> FrameView
        decreases self,
    {
        FrameView {
            id: self.id@,
            key: self.key@,
            breadcrumbs: Seq::new(
                self.breadcrumbs@.len(),
                |i: int|
                    if 0 <= i < self.breadcrumbs@.len() {
                        (self.breadcrumbs@[i].0@, self.breadcrumbs@[i].1@)
                    } else {
                        (Seq::empty(), JsonView::Null)
                    },
            ),
            success: self.success,
            result: match self.result {
                Some(value) => Some(value@),
                None => None,
            },
            start_time: self.start_time,
            end_time: self.end_time,
            sub_frames: Seq::new(
                self.sub_frames@.len(),
                |i: int|
                    if 0 <= i < self.sub_frames@.len() {
                        self.sub_frames@[i]@
                    } else {
                        arbitrary()
                    },
            ),
        }
    }
}

/// What the view of a span is, field by field.
proof fn lemma_view(frame: Frame)
    ensures
        frame@.id == frame.id@,
        frame@.key == frame.key@,
        frame@.breadcrumbs.len() == frame.breadcrumbs@.len(),
        forall|i: int|
            0 <= i < frame.breadcrumbs@.len() ==> (#[trigger] frame@.breadcrumbs[i]) == (
                frame.breadcrumbs@[i].0@,
                frame.breadcrumbs@[i].1@,
            ),
        frame@.success == frame.success,
        frame@.result == match frame.result {
            Some(value) => Some(value@),
            None => None,
        },
        frame@.start_time == frame.start_time,
        frame@.end_time == frame.end_time,
        frame@.sub_frames.len() == frame.sub_frames@.len(),
        forall|i: int|
            0 <= i < frame.sub_frames@.len() ==> (#[trigger] frame@.sub_frames[i])
                == frame.sub_frames@[i]@,
{
    reveal_with_fuel(<Frame as View>::view, 2);
}

/// A new identifier for a span: `uuid::Uuid::new_v4`, written out by
/// `to_string`. Trusted: the text has the 36 characters of the hyphenated form,
/// which is what `Uuid`'s `Display` writes. Which identifier comes is left
/// open. `new_v4` panics where the system has no random bytes to give.
#[verifier::external_body]
pub(crate) fn fresh_key() -> (key: String)
    ensures
        key@.len() == 36,
{
    uuid::Uuid::new_v4().to_string()
}

impl Frame {
    /// Opens a span under the name `id`, with a new key, starting now.
    pub fn new(id: String) -> (frame: Frame)
        ensures
            frame@.is_fresh(id@),
            frame@.key.len() == 36,
            frame@.wf(),
    {
        let key = fresh_key();
        let start_time = now();
        Frame::opened(id, key, start_time)
    }

    /// The span that was opened under the name `id` with the key `key` at `start_time`.
    pub fn opened(id: String, key: String, start_time: Timestamp) -> (frame: Frame)
        ensures
            frame@ == FrameView::fresh(id@, key@, start_time),
            frame@.wf(),
    {
        let frame = Frame {
            id,
            key,
            breadcrumbs: Vec::new(),
            success: None,
            result: None,
            start_time,
            end_time: None,
            sub_frames: Vec::new(),
        };
        proof {
            lemma_view(frame);
            assert(frame@.breadcrumbs =~= Seq::empty());
            assert(frame@.sub_frames =~= Seq::empty());
        }
        frame
    }

    /// Sets the start of the span to the present moment, as the clock reads
    /// it: a moment whose nanoseconds stay below a whole second.
    pub fn start(&mut self)
        ensures
            final(self)@ == old(self)@.restarted(final(self)@.start_time),
            final(self)@.start_time.nanos < 1_000_000_000,
    {
        let t = now();
        self.start_at(t);
    }

    /// Sets the start of the span to `now`.
    pub fn start_at(&mut self, now: Timestamp)
        ensures
            final(self)@ == old(self)@.restarted(now),
    {
        proof {
            lemma_view(*self);
        }
        self.start_time = now;
        proof {
            lemma_view(*self);
            assert(self@.breadcrumbs =~= old(self)@.breadcrumbs);
            assert(self@.sub_frames =~= old(self)@.sub_frames);
        }
    }

    /// Ends the span at the present moment with the outcome given. A span that
    /// has ended already stays as it is. Returns whether the span was open.
    pub fn end(&mut self, success: bool, result: Option<Json>) -> (was_open: bool)
        ensures
            was_open == !old(self)@.closed(),
            was_open ==> final(self)@.end_time is Some && final(self)@ == old(self)@.ended(
                success,
                opt_view(result),
                final(self)@.end_time->0,
            ),
            !was_open ==> final(self)@ == old(self)@,
    {
        let t = now();
        self.end_at(success, result, t)
    }

    /// Ends the span at `now` with the outcome given. A span that has ended
    /// already stays as it is. Returns whether the span was open.
    pub fn end_at(&mut self, success: bool, result: Option<Json>, now: Timestamp) -> (was_open:
        bool)
        ensures
            was_open == !old(self)@.closed(),
            final(self)@ == old(self)@.ended(success, opt_view(result), now),
    {
        proof {
            lemma_view(*self);
        }
        if self.end_time.is_some() {
            return false;
        }
        self.success = Some(success);
        self.result = result;
        self.end_time = Some(now);
        proof {
            lemma_view(*self);
            assert(self@.breadcrumbs =~= old(self)@.breadcrumbs);
            assert(self@.sub_frames =~= old(self)@.sub_frames);
        }
        true
    }

    /// Ends the span at `now`: as failed where `error` says why, and then the
    /// reason is noted under `error`; else as a success that returned `result`.
    /// A span that has ended already stays as it is.
    pub fn close(&mut self, error: Option<String>, result: Option<Json>, now: Timestamp)
        ensures
            final(self)@ == Ending::new(opt_text(error), opt_view(result), now).close(old(self)@),
            final(self)@.closed(),
    {
        if self.is_closed() {
            return ;
        }
        match error {
            None => {
                self.end_at(true, result, now);
            },
            Some(message) => {
                self.end_at(false, None, now);
                self.add_breadcrumbs("error", Json::Str(message));
            },
        }
    }

    /// Adds a span that ran inside this one and has ended.
    pub fn add_sub_frame(&mut self, frame: Frame)
        requires
            frame@.closed(),
        ensures
            final(self)@ == old(self)@.with_child(frame@),
    {
        proof {
            lemma_view(*self);
        }
        self.sub_frames.push(frame);
        proof {
            lemma_view(*self);
            assert(self@.breadcrumbs =~= old(self)@.breadcrumbs);
            assert(self@.sub_frames =~= old(self)@.sub_frames.push(frame@));
        }
    }

    /// Sets the note `name` to `value`: in place where the name is noted
    /// already, behind the other notes where it is not.
    pub fn add_breadcrumbs(&mut self, name: &str, value: Json)
        ensures
            final(self)@ == old(self)@.with_breadcrumb(name@, value@),
    {
        let key = name.to_owned();
        proof {
            lemma_view(*self);
        }
        let mut i: usize = 0;
        while i < self.breadcrumbs.len()
            invariant
                *self == *old(self),
                key@ == name@,
                i <= self.breadcrumbs.len(),
                self@.breadcrumbs.len() == self.breadcrumbs@.len(),
                forall|j: int|
                    0 <= j < self.breadcrumbs@.len() ==> (#[trigger] self@.breadcrumbs[j]) == (
                        self.breadcrumbs@[j].0@,
                        self.breadcrumbs@[j].1@,
                    ),
                forall|j: int| 0 <= j < i ==> (#[trigger] self@.breadcrumbs[j]).0 != name@,
            decreases self.breadcrumbs.len() - i,
        {
            if self.breadcrumbs[i].0 == key {
                proof {
                    lemma_first_is_index(self@.breadcrumbs, name@, i as int);
                }
                self.breadcrumbs[i] = (key, value);
                proof {
                    lemma_view(*self);
                    assert(self@.breadcrumbs =~= old(self)@.breadcrumbs.update(
                        i as int,
                        (name@, value@),
                    ));
                    assert(self@.sub_frames =~= old(self)@.sub_frames);
                }
                return ;
            }
            i = i + 1;
        }
        proof {
            lemma_absent(self@.breadcrumbs, name@);
        }
        self.breadcrumbs.push((key, value));
        proof {
            lemma_view(*self);
            assert(self@.breadcrumbs =~= old(self)@.breadcrumbs.push((name@, value@)));
            assert(self@.sub_frames =~= old(self)@.sub_frames);
        }
    }

    /// The key of the span.
    pub fn get_key(&self) -> (key: String)
        ensures
            key@ == self@.key,
    {
        proof {
            lemma_view(*self);
        }
        self.key.clone()
    }

    /// The name under which the span was opened.
    pub fn id(&self) -> (id: &String)
        ensures
            id@ == self@.id,
    {
        proof {
            lemma_view(*self);
        }
        &self.id
    }

    /// Whether the span has ended.
    pub fn is_closed(&self) -> (closed: bool)
        ensures
            closed == self@.closed(),
    {
        proof {
            lemma_view(*self);
        }
        self.end_time.is_some()
    }

    /// How the work came out, once the span has ended.
    pub fn success(&self) -> (success: Option<bool>)
        ensures
            success == self@.success,
    {
        proof {
            lemma_view(*self);
        }
        self.success
    }

    /// What the work returned, if anything.
    pub fn result(&self) -> (result: Option<&Json>)
        ensures
            opt_ref_view(result) == self@.result,
    {
        proof {
            lemma_view(*self);
        }
        self.result.as_ref()
    }

    /// When the span started.
    pub fn start_time(&self) -> (t: Timestamp)
        ensures
            t == self@.start_time,
    {
        proof {
            lemma_view(*self);
        }
        self.start_time
    }

    /// When the span ended, once it has.
    pub fn end_time(&self) -> (t: Option<Timestamp>)
        ensures
            t == self@.end_time,
    {
        proof {
            lemma_view(*self);
        }
        self.end_time
    }

    /// The note called `name`, if there is one.
    pub fn breadcrumb(&self, name: &str) -> (found: Option<&Json>)
        ensures
            opt_ref_view(found) == self@.breadcrumb(name@),
    {
        let key = name.to_owned();
        proof {
            lemma_view(*self);
        }
        let mut i: usize = 0;
        while i < self.breadcrumbs.len()
            invariant
                key@ == name@,
                i <= self.breadcrumbs.len(),
                self@.breadcrumbs.len() == self.breadcrumbs@.len(),
                forall|j: int|
                    0 <= j < self.breadcrumbs@.len() ==> (#[trigger] self@.breadcrumbs[j]) == (
                        self.breadcrumbs@[j].0@,
                        self.breadcrumbs@[j].1@,
                    ),
                forall|j: int| 0 <= j < i ==> (#[trigger] self@.breadcrumbs[j]).0 != name@,
            decreases self.breadcrumbs.len() - i,
        {
            if self.breadcrumbs[i].0 == key {
                proof {
                    lemma_first_is_index(self@.breadcrumbs, name@, i as int);
                }
                return Some(&self.breadcrumbs[i].1);
            }
            i = i + 1;
        }
        proof {
            lemma_absent(self@.breadcrumbs, name@);
        }
        None
    }

    /// The notes, in the order in which their names were first written.
    pub fn breadcrumbs(&self) -> (notes: &Vec<(String, Json)>)
        ensures
            notes@.len() == self@.breadcrumbs.len(),
            forall|i: int|
                0 <= i < notes@.len() ==> (#[trigger] self@.breadcrumbs[i]) == (
                    notes@[i].0@,
                    notes@[i].1@,
                ),
    {
        proof {
            lemma_view(*self);
        }
        &self.breadcrumbs
    }

    /// How many notes the span carries.
    pub fn breadcrumb_count(&self) -> (n: usize)
        ensures
            n == self@.breadcrumbs.len(),
    {
        proof {
            lemma_view(*self);
        }
        self.breadcrumbs.len()
    }

    /// The spans that ended inside this one, in the order in which they ended.
    pub fn sub_frames(&self) -> (children: &Vec<Frame>)
        ensures
            children@.len() == self@.sub_frames.len(),
            forall|i: int|
                0 <= i < children@.len() ==> (#[trigger] children@[i])@ == self@.sub_frames[i],
    {
        proof {
            lemma_view(*self);
        }
        &self.sub_frames
    }

    /// A copy of this span, the spans inside it included.
    pub fn duplicate(&self) -> (copy: Frame)
        ensures
            copy@ == self@,
        decreases self,
    {
        proof {
            lemma_view(*self);
        }
        let mut breadcrumbs: Vec<(String, Json)> = Vec::new();
        let mut i: usize = 0;
        while i < self.breadcrumbs.len()
            invariant
                i <= self.breadcrumbs.len(),
                breadcrumbs@.len() == i,
                forall|j: int|
                    0 <= j < i ==> (#[trigger] breadcrumbs@[j]).0@ == self.breadcrumbs@[j].0@
                        && breadcrumbs@[j].1@ == self.breadcrumbs@[j].1@,
            decreases self.breadcrumbs.len() - i,
        {
            let name = self.breadcrumbs[i].0.clone();
            let value = self.breadcrumbs[i].1.duplicate();
            breadcrumbs.push((name, value));
            i = i + 1;
        }
        let mut sub_frames: Vec<Frame> = Vec::new();
        let mut k: usize = 0;
        while k < self.sub_frames.len()
            invariant
                k <= self.sub_frames.len(),
                sub_frames@.len() == k,
                forall|j: int| 0 <= j < k ==> (#[trigger] sub_frames@[j])@ == self.sub_frames@[j]@,
            decreases self.sub_frames.len() - k,
        {
            assert(decreases_to!(self.sub_frames => self.sub_frames@[k as int]));
            let child = self.sub_frames[k].duplicate();
            sub_frames.push(child);
            k = k + 1;
        }
        let copy = Frame {
            id: self.id.clone(),
            key: self.key.clone(),
            breadcrumbs,
            success: self.success,
            result: match &self.result {
                Some(value) => Some(value.duplicate()),
                None => None,
            },
            start_time: self.start_time,
            end_time: self.end_time,
            sub_frames,
        };
        proof {
            lemma_view(copy);
            assert(copy@.breadcrumbs =~= self@.breadcrumbs);
            assert(copy@.sub_frames =~= self@.sub_frames);
        }
        copy
    }

    /// The document that this span is stored as.
    pub fn record(&self) -> (doc: Json)
        ensures
            doc@ == self@.record(),
        decreases self,
    {
        proof {
            lemma_view(*self);
        }
        let mut crumbs: Vec<(String, Json)> = Vec::new();
        let mut i: usize = 0;
        while i < self.breadcrumbs.len()
            invariant
                i <= self.breadcrumbs.len(),
                crumbs@.len() == i,
                forall|j: int|
                    0 <= j < i ==> (#[trigger] crumbs@[j]).0@ == self.breadcrumbs@[j].0@
                        && crumbs@[j].1@ == self.breadcrumbs@[j].1@,
            decreases self.breadcrumbs.len() - i,
        {
            let name = self.breadcrumbs[i].0.clone();
            let value = self.breadcrumbs[i].1.duplicate();
            crumbs.push((name, value));
            i = i + 1;
        }
        let mut children: Vec<Json> = Vec::new();
        let mut k: usize = 0;
        while k < self.sub_frames.len()
            invariant
                k <= self.sub_frames.len(),
                children@.len() == k,
                forall|j: int|
                    0 <= j < k ==> (#[trigger] children@[j])@ == self.sub_frames@[j]@.record(),
            decreases self.sub_frames.len() - k,
        {
            assert(decreases_to!(self.sub_frames => self.sub_frames@[k as int]));
            let child = self.sub_frames[k].record();
            children.push(child);
            k = k + 1;
        }
        let success = match self.success {
            Some(b) => Json::Bool(b),
            None => Json::Null,
        };
        let result = match &self.result {
            Some(value) => value.duplicate(),
            None => Json::Null,
        };
        let end_time = match self.end_time {
            Some(t) => t.to_json(),
            None => Json::Null,
        };
        let crumbs_doc = Json::Object(crumbs);
        let children_doc = Json::Array(children);
        proof {
            lemma_view_object(crumbs);
            lemma_view_array(children);
            assert(crumbs_doc@->Object_0 =~= self@.breadcrumbs);
            assert(children_doc@->Array_0 =~= self@.sub_records());
        }
        let mut fields: Vec<(String, Json)> = Vec::new();
        fields.push(("id".to_owned(), Json::Str(self.id.clone())));
        fields.push(("key".to_owned(), Json::Str(self.key.clone())));
        fields.push(("breadcrumbs".to_owned(), crumbs_doc));
        fields.push(("success".to_owned(), success));
        fields.push(("result".to_owned(), result));
        fields.push(("start_time".to_owned(), self.start_time.to_json()));
        fields.push(("end_time".to_owned(), end_time));
        fields.push(("sub_frames".to_owned(), children_doc));
        let doc = Json::Object(fields);
        proof {
            lemma_view_object(fields);
            assert(doc@->Object_0 =~= self@.record()->Object_0);
        }
        doc
    }
}

/// One call on a span.
pub enum FrameOp {
    /// The start is set to a moment.
    Start(Timestamp),
    /// A note is written.
    Note(Seq<char>, JsonView),
    /// A span that ended inside is added.
    Child(FrameView),
    /// The span is ended, with its outcome, its result and the moment.
    End(bool, Option<JsonView>, Timestamp),
}

impl FrameView {
    /// This span after one call.
    pub open spec fn apply(self, op: FrameOp) -> FrameView {
        match op {
            FrameOp::Start(now) => self.restarted(now),
            FrameOp::Note(name, value) => self.with_breadcrumb(name, value),
            FrameOp::Child(child) => self.with_child(child),
            FrameOp::End(success, result, now) => self.ended(success, result, now),
        }
    }

    /// This span after the calls `ops`, one after the other.
    pub open spec fn apply_all(self, ops: Seq<FrameOp>) -> FrameView
        decreases ops.len(),
    {
        if ops.len() == 0 {
            self
        } else {
            self.apply(ops[0]).apply_all(ops.subrange(1, ops.len() as int))
        }
    }
}

/// The end of a span is absent until the span is ended: no call but an
/// ending sets it, and with it the outcome stays absent too.
pub proof fn lemma_end_time_absent_until_end(frame: FrameView, ops: Seq<FrameOp>)
    requires
        frame.end_time is None,
        forall|i: int| 0 <= i < ops.len() ==> !(#[trigger] ops[i] is End),
    ensures
        frame.apply_all(ops).end_time is None,
        frame.apply_all(ops).success == frame.success,
        frame.apply_all(ops).result == frame.result,
    decreases ops.len(),
{
    if ops.len() > 0 {
        let rest = ops.subrange(1, ops.len() as int);
        assert(!(ops[0] is End));
        assert forall|i: int| 0 <= i < rest.len() implies !(#[trigger] rest[i] is End) by {
            assert(rest[i] == ops[i + 1]);
        }
        lemma_end_time_absent_until_end(frame.apply(ops[0]), rest);
    }
}

/// Once a span has ended, no call changes its end, its outcome or its
/// result; ending it again changes nothing at all.
pub proof fn lemma_end_time_never_changes(frame: FrameView, ops: Seq<FrameOp>)
    requires
        frame.end_time is Some,
    ensures
        frame.apply_all(ops).end_time == frame.end_time,
        frame.apply_all(ops).success == frame.success,
        frame.apply_all(ops).result == frame.result,
        forall|success: bool, result: Option<JsonView>, now: Timestamp|
            #[trigger] frame.ended(success, result, now) == frame,
    decreases ops.len(),
{
    if ops.len() > 0 {
        lemma_end_time_never_changes(frame.apply(ops[0]), ops.subrange(1, ops.len() as int));
    }
}

/// The first ending of a span decides for good: whatever is called after it,
/// the end, the outcome and the result are those of that ending.
pub proof fn lemma_first_end_decides(
    frame: FrameView,
    before: Seq<FrameOp>,
    success: bool,
    result: Option<JsonView>,
    now: Timestamp,
    after: Seq<FrameOp>,
)
    requires
        frame.end_time is None,
        forall|i: int| 0 <= i < before.len() ==> !(#[trigger] before[i] is End),
    ensures
        frame.apply_all(before + seq![FrameOp::End(success, result, now)] + after).end_time
            == Some(now),
        frame.apply_all(before + seq![FrameOp::End(success, result, now)] + after).success
            == Some(success),
        frame.apply_all(before + seq![FrameOp::End(success, result, now)] + after).result
            == result,
    decreases before.len(),
{
    let end = FrameOp::End(success, result, now);
    let all = before + seq![end] + after;
    let rest = all.subrange(1, all.len() as int);
    if before.len() == 0 {
        assert(all[0] == end);
        assert(rest =~= after);
        lemma_end_time_never_changes(frame.apply(end), after);
    } else {
        let shorter = before.subrange(1, before.len() as int);
        assert(all[0] == before[0]);
        assert(!(before[0] is End));
        assert(rest =~= shorter + seq![end] + after);
        assert forall|i: int| 0 <= i < shorter.len() implies !(#[trigger] shorter[i] is End) by {
            assert(shorter[i] == before[i + 1]);
        }
        lemma_first_end_decides(frame.apply(before[0]), shorter, success, result, now, after);
    }
}

/// A span that has just been opened is in order, and every call keeps a
/// span in order, as long as the spans that are added have ended and are in
/// order themselves.
pub proof fn lemma_calls_keep_the_invariant(frame: FrameView, op: FrameOp)
    requires
        frame.wf(),
        op matches FrameOp::Child(child) ==> child.closed() && child.wf(),
    ensures
        frame.apply(op).wf(),
        forall|id: Seq<char>, key: Seq<char>, now: Timestamp|
            (#[trigger] FrameView::fresh(id, key, now)).wf(),
{
    match op {
        FrameOp::Note(name, value) => {
            crate::named::lemma_upsert_keeps_names_distinct(frame.breadcrumbs, name, value);
        },
        FrameOp::Child(child) => {
            let after = frame.with_child(child);
            assert forall|i: int| 0 <= i < after.sub_frames.len() implies (
            #[trigger] after.sub_frames[i]).closed() && after.sub_frames[i].wf() by {
                if i < frame.sub_frames.len() {
                    assert(after.sub_frames[i] == frame.sub_frames[i]);
                }
            }
        },
        _ => {},
    }
}

/// Ending a span that is in order leaves it ended and in order; ending one
/// that has ended already changes nothing.
pub proof fn lemma_close_keeps_the_invariant(frame: FrameView, ending: Ending)
    requires
        frame.wf(),
    ensures
        frame.closed() ==> ending.close(frame) == frame,
        ending.close(frame).closed(),
        ending.close(frame).wf(),
        ending.close(frame).sub_frames == frame.sub_frames,
        !frame.closed() ==> ending.close(frame).success == Some(ending.error is None),
        !frame.closed() && ending.error is None ==> ending.close(frame).result == ending.result,
{
    match ending.error {
        None => {
            lemma_calls_keep_the_invariant(frame, FrameOp::End(true, ending.result, ending.at));
        },
        Some(message) => {
            lemma_calls_keep_the_invariant(frame, FrameOp::End(false, None, ending.at));
            lemma_calls_keep_the_invariant(
                frame.ended(false, None, ending.at),
                FrameOp::Note("error"@, JsonView::Str(message)),
            );
        },
    }
}

/// The view of a value that may be absent.
pub open spec fn opt_view(value: Option<Json>) -> Option<JsonView> {
    match value {
        Some(v) => Some(v@),
        None => None,
    }
}

/// The view of a text that may be absent.
pub open spec fn opt_text(text: Option<String>) -> Option<Seq<char>> {
    match text {
        Some(t) => Some(t@),
        None => None,
    }
}

/// The view of a borrowed value that may be absent.
pub open spec fn opt_ref_view(value: Option<&Json>) -> Option<JsonView> {
    match value {
        Some(v) => Some(v@),
        None => None,
    }
}

} // verus!
