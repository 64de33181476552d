//! Moments in time, and the one place where the system clock is read.

use vstd::prelude::*;
use crate::json::Json;
use crate::json::JsonView;
use crate::json::lemma_view_object;

verus! {

/// A moment in UTC: whole seconds since 1970-01-01T00:00:00Z, and the
/// nanoseconds that have passed of the second after.
#[derive(Clone, Copy, Debug, PartialEq, Eq, Structural)]
pub struct Timestamp {
    pub secs: i64,
    pub nanos: u32,
}

/// The text in which chrono writes the moment of `secs` whole seconds and
/// `nanos` nanoseconds after the start of 1970, such as
/// `2015-05-15T00:00:00.5Z`; nothing where chrono cannot hold the moment.
pub uninterp spec fn moment_text(secs: int, nanos: int) -> Option<Seq<char>>;

/// The moment as text: `chrono::DateTime::<Utc>::from_timestamp`, written
/// out by `to_rfc3339_opts` with the fraction as short as it can be and `Z`
/// for the offset, which is the form that chrono hands to serde. Trusted: the
/// result is a function of the two numbers alone, named [`moment_text`];
/// there is none where `from_timestamp` has none.
#[verifier::external_body]
fn written(t: Timestamp) -> (text: Option<String>)
    ensures
        text_view(text) == moment_text(t.secs as int, t.nanos as int),
{
    match chrono::DateTime::<chrono::Utc>::from_timestamp(t.secs, t.nanos) {
        Some(moment) => Some(moment.to_rfc3339_opts(chrono::SecondsFormat::AutoSi, true)),
        None => None,
    }
}

/// The view of a text that may be absent.
pub open spec fn text_view(text: Option<String>) -> Option<Seq<char>> {
    match text {
        Some(t) => Some(t@),
        None => None,
    }
}

impl Timestamp {
    /// The two numbers of a moment as an object.
    pub open spec fn numbers(self) -> JsonView {
        JsonView::Object(
            seq![
                ("secs"@, JsonView::Int(self.secs as int)),
                ("nanos"@, JsonView::Int(self.nanos as int)),
            ],
        )
    }

    /// How a moment is written out where `text` is its text: as that text, or
    /// as its two numbers where it has none.
    pub open spec fn record_as(self, text: Option<Seq<char>>) -> JsonView {
        match text {
            Some(t) => JsonView::Str(t),
            None => self.numbers(),
        }
    }

    /// How a moment is written out: as the text that chrono writes for it, or
    /// as its two numbers where chrono cannot hold it.
    pub open spec fn record(self) -> JsonView {
        self.record_as(moment_text(self.secs as int, self.nanos as int))
    }

    /// This moment as a structured value, where `text` is its text.
    pub fn written_as(&self, text: Option<String>) -> (doc: Json)
        ensures
            doc@ == self.record_as(text_view(text)),
    {
        match text {
            Some(t) => Json::Str(t),
            None => {
                let mut fields: Vec<(String, Json)> = Vec::new();
                fields.push(("secs".to_owned(), Json::Int(self.secs)));
                fields.push(("nanos".to_owned(), Json::Int(self.nanos as i64)));
                let doc = Json::Object(fields);
                proof {
                    lemma_view_object(fields);
                    assert(doc@->Object_0 =~= self.numbers()->Object_0);
                }
                doc
            },
        }
    }

    /// This moment as a structured value.
    pub fn to_json(&self) -> (doc: Json)
        ensures
            doc@ == self.record(),
    {
        let text = written(*self);
        self.written_as(text)
    }
}

/// The present moment. Reads the system clock through `chrono::Utc::now` and
/// takes the result apart with `timestamp` and `timestamp_subsec_nanos`.
/// Trusted: the clock's reading is below a whole second in its nanoseconds,
/// as `Utc::now` builds it from the sub-second part of the system time.
/// Nothing is claimed of the seconds. `Utc::now` panics where the system
/// clock stands before 1970.
#[verifier::external_body]
pub(crate) fn now() -> (t: Timestamp)
    ensures
        t.nanos < 1_000_000_000,
{
    let moment = chrono::Utc::now();
    Timestamp { secs: moment.timestamp(), nanos: moment.timestamp_subsec_nanos() }
}

} // verus!
