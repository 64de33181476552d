//! The table of named events from which instrumented call sites are
//! generated, and what the generator decides from it: which events are
//! critical, of what type a field is, and how a statement of an instrumented
//! function is rewritten.

use vstd::prelude::*;
use vstd::string::StringExecFns;
use crate::named::first_field;
use crate::named::has_field;
use crate::named::lemma_absent;
use crate::named::lemma_first_is_index;

verus! {

/// One kind of event: whether it is critical, and the storage type of each
/// of its fields, by the field's name.
#[derive(Debug, PartialEq, Eq)]
pub struct Event {
    pub critical: bool,
    pub fields: Vec<(String, String)>,
}

/// The mathematical value of an [`Event`].
pub struct EventView {
    pub critical: bool,
    pub fields: Seq<(Seq<char>, Seq<char>)>,
}

impl View for Event {
    type V = EventView;

    open spec fn view(&self) -> EventView {
        EventView {
            critical: self.critical,
            fields: Seq::new(
                self.fields@.len(),
                |i: int| (self.fields@[i].0@, self.fields@[i].1@),
            ),
        }
    }
}

/// The events by their names. Of two events of one name the first counts.
#[derive(Debug, PartialEq, Eq)]
pub struct EventTable {
    pub events: Vec<(String, Event)>,
}

impl View for EventTable {
    type V = Seq<(Seq<char>, EventView)>;

    open spec fn view(&self) -> Seq<(Seq<char>, EventView)> {
        Seq::new(self.events@.len(), |i: int| (self.events@[i].0@, self.events@[i].1@))
    }
}

/// Why the table has no answer.
#[derive(Clone, Copy, Debug, PartialEq, Eq, Structural)]
pub enum SchemaError {
    /// The table has no event of the name.
    NoTable,
    /// The event has no field of the name.
    NoField,
    /// A call that notes a field has no second argument to name the field.
    NoFieldArgument,
}

/// The lower-case form of a text, as `str::to_lowercase` gives it.
pub uninterp spec fn lowercase(text: Seq<char>) -> Seq<char>;

/// `text` in lower case: `str::to_lowercase`. Trusted: the result is a
/// function of the text alone, named [`lowercase`].
#[verifier::external_body]
fn lowered(text: &str) -> (lower: String)
    ensures
        lower@ == lowercase(text@),
{
    text.to_lowercase()
}

/// `text` without its double quotes: `str::replace` of `"` by nothing.
/// Trusted: the result holds the characters of `text` that are no double
/// quote, in their order.
#[verifier::external_body]
fn without_quotes(text: &str) -> (bare: String)
    ensures
        bare@ == text@.filter(|c: char| c != '"'),
{
    text.replace("\"", "")
}

/// The type in which a field is noted, by the lower-case name of its storage
/// type: `i32` for `int`, `string` for everything else.
pub open spec fn rust_type(lowered: Seq<char>) -> Seq<char> {
    if lowered == "int"@ {
        "i32"@
    } else {
        "string"@
    }
}

/// The type in which a field is noted, by the lower-case name of its storage type.
pub fn rust_type_of(lowered: &str) -> (name: String)
    ensures
        name@ == rust_type(lowered@),
{
    if lowered.to_owned() == "int".to_owned() {
        "i32".to_owned()
    } else {
        "string".to_owned()
    }
}

/// The type in which a field of the storage type given is noted. Upper and
/// lower case are not told apart.
pub fn get_rust_type(storage_type: String) -> (name: String)
    ensures
        name@ == rust_type(lowercase(storage_type@)),
{
    let lower = lowered(storage_type.as_str());
    rust_type_of(lower.as_str())
}

/// Looks at the description of a call site before anything is generated.
/// Every description is accepted.
pub fn validate(metadata: String) -> (accepted: bool)
    ensures
        accepted,
{
    true
}

/// The name of the event that a call site is described by: the description itself.
pub fn get_table_name(metadata: String) -> (name: String)
    ensures
        name == metadata,
{
    metadata
}

/// The view of an event that may be absent.
pub open spec fn opt_event(event: Option<&Event>) -> Option<EventView> {
    match event {
        Some(e) => Some(e@),
        None => None,
    }
}

/// The event called `table`, if the table has one.
pub fn find_event<'a>(events: &'a EventTable, table: &str) -> (event: Option<&'a Event>)
    ensures
        opt_event(event) == first_field(events@, table@),
{
    let name = table.to_owned();
    let mut i: usize = 0;
    while i < events.events.len()
        invariant
            name@ == table@,
            i <= events.events.len(),
            forall|j: int| 0 <= j < i ==> (#[trigger] events@[j]).0 != table@,
        decreases events.events.len() - i,
    {
        if events.events[i].0 == name {
            proof {
                lemma_first_is_index(events@, table@, i as int);
            }
            return Some(&events.events[i].1);
        }
        i = i + 1;
    }
    proof {
        lemma_absent(events@, table@);
    }
    None
}

/// The event called `table`, in a table that has one.
pub fn get_event<'a>(events: &'a EventTable, table: &str) -> (event: &'a Event)
    requires
        has_field(events@, table@),
    ensures
        Some(event@) == first_field(events@, table@),
{
    match find_event(events, table) {
        Some(event) => event,
        None => unreached(),
    }
}

/// The storage type of the field called `field`.
pub fn storage_type<'a>(event: &'a Event, field: &str) -> (found: Option<&'a String>)
    ensures
        match found {
            Some(t) => first_field(event@.fields, field@) == Some(t@),
            None => first_field(event@.fields, field@) is None,
        },
{
    let name = field.to_owned();
    let mut i: usize = 0;
    while i < event.fields.len()
        invariant
            name@ == field@,
            i <= event.fields.len(),
            forall|j: int| 0 <= j < i ==> (#[trigger] event@.fields[j]).0 != field@,
        decreases event.fields.len() - i,
    {
        if event.fields[i].0 == name {
            proof {
                lemma_first_is_index(event@.fields, field@, i as int);
            }
            return Some(&event.fields[i].1);
        }
        i = i + 1;
    }
    proof {
        lemma_absent(event@.fields, field@);
    }
    None
}

/// What [`get_func`] answers.
pub open spec fn func_of(
    events: Seq<(Seq<char>, EventView)>,
    field: Seq<char>,
    table: Seq<char>,
) -> Result<Seq<char>, SchemaError> {
    match first_field(events, table) {
        None => Err(SchemaError::NoTable),
        Some(event) => match first_field(event.fields, field) {
            None => Err(SchemaError::NoField),
            Some(storage) => Ok(rust_type(lowercase(storage))),
        },
    }
}

/// Whether the table has an event called `table`, and that event a field
/// called `field`.
pub open spec fn has_storage(
    events: Seq<(Seq<char>, EventView)>,
    field: Seq<char>,
    table: Seq<char>,
) -> bool {
    has_field(events, table) && has_field(first_field(events, table)->0.fields, field)
}

/// The type in which the field `field` of the event `table` is noted, in a
/// table that has the event, and the event the field.
pub fn get_func(events: &EventTable, field: String, table: &str) -> (name: String)
    requires
        has_storage(events@, field@, table@),
    ensures
        Ok::<Seq<char>, SchemaError>(name@) == func_of(events@, field@, table@),
{
    let event = get_event(events, table);
    match storage_type(event, field.as_str()) {
        Some(storage) => get_rust_type(storage.clone()),
        None => unreached(),
    }
}

/// Whether the event called `table` is critical.
pub fn is_critical(events: &EventTable, table: &str) -> (critical: Result<bool, SchemaError>)
    ensures
        critical == match first_field(events@, table@) {
            Some(event) => Ok::<bool, SchemaError>(event.critical),
            None => Err::<bool, SchemaError>(SchemaError::NoTable),
        },
{
    match find_event(events, table) {
        Some(event) => Ok(event.critical),
        None => Err(SchemaError::NoTable),
    }
}

/// What the generator reads off one statement of an instrumented function.
#[derive(Debug, PartialEq, Eq)]
pub enum Statement {
    /// A macro called as a statement, by the first segment of its path.
    Macro { name: String },
    /// A function called as a statement, by the first segment of its path,
    /// with the number of its arguments and with its second argument where
    /// that is a string literal.
    Call { name: String, args: usize, second: Option<String> },
    /// Anything else.
    Other,
}

/// The mathematical value of a [`Statement`].
pub enum StatementView {
    Macro { name: Seq<char> },
    Call { name: Seq<char>, args: nat, second: Option<Seq<char>> },
    Other,
}

impl View for Statement {
    type V = StatementView;

    open spec fn view(&self) -> StatementView {
        match self {
            Statement::Macro { name } => StatementView::Macro { name: name@ },
            Statement::Call { name, args, second } => StatementView::Call {
                name: name@,
                args: *args as nat,
                second: match second {
                    Some(text) => Some(text@),
                    None => None,
                },
            },
            Statement::Other => StatementView::Other,
        }
    }
}

/// What becomes of a statement.
#[derive(Debug, PartialEq, Eq)]
pub enum Rewrite {
    /// It stays as it is.
    Keep,
    /// The first segment of the path that is called gets this name.
    Rename(String),
}

/// The mathematical value of a [`Rewrite`].
pub enum RewriteView {
    Keep,
    Rename(Seq<char>),
}

/// The view of what becomes of a statement, or of why nothing can.
pub open spec fn rewrite_view(answer: Result<Rewrite, SchemaError>) -> Result<
    RewriteView,
    SchemaError,
> {
    match answer {
        Ok(Rewrite::Keep) => Ok(RewriteView::Keep),
        Ok(Rewrite::Rename(name)) => Ok(RewriteView::Rename(name@)),
        Err(e) => Err(e),
    }
}

/// What becomes of a statement in the function that is instrumented for the
/// event `table`: `println` becomes `format`; `observe_field` becomes
/// `observe_` and the type of the field that its second argument names, where
/// that is a string literal; everything else stays.
pub open spec fn rewritten(
    statement: StatementView,
    events: Seq<(Seq<char>, EventView)>,
    table: Seq<char>,
) -> Result<RewriteView, SchemaError> {
    match statement {
        StatementView::Macro { name } => if name == "println"@ {
            Ok(RewriteView::Rename("format"@))
        } else {
            Ok(RewriteView::Keep)
        },
        StatementView::Call { name, args, second } => if name != "observe_field"@ {
            Ok(RewriteView::Keep)
        } else if args < 2 {
            Err(SchemaError::NoFieldArgument)
        } else {
            match second {
                None => Ok(RewriteView::Keep),
                Some(field) => match func_of(events, field, table) {
                    Ok(noted_as) => Ok(RewriteView::Rename("observe_"@ + noted_as)),
                    Err(e) => Err(e),
                },
            }
        },
        StatementView::Other => Ok(RewriteView::Keep),
    }
}

/// What becomes of `statement` in the function that is instrumented for the
/// event `table`.
pub fn rewrite_statement(statement: &Statement, events: &EventTable, table: &str) -> (answer:
    Result<Rewrite, SchemaError>)
    ensures
        rewrite_view(answer) == rewritten(statement@, events@, table@),
{
    match statement {
        Statement::Macro { name } => {
            if *name == "println".to_owned() {
                Ok(Rewrite::Rename("format".to_owned()))
            } else {
                Ok(Rewrite::Keep)
            }
        },
        Statement::Call { name, args, second } => {
            if *name != "observe_field".to_owned() {
                Ok(Rewrite::Keep)
            } else if *args < 2 {
                Err(SchemaError::NoFieldArgument)
            } else {
                match second {
                    None => Ok(Rewrite::Keep),
                    Some(field) => match find_event(events, table) {
                        None => Err(SchemaError::NoTable),
                        Some(event) => match storage_type(event, field.as_str()) {
                            None => Err(SchemaError::NoField),
                            Some(_) => {
                                let noted_as = get_func(events, field.clone(), table);
                                let mut renamed = "observe_".to_owned();
                                renamed.append(noted_as.as_str());
                                Ok(Rewrite::Rename(renamed))
                            },
                        },
                    },
                }
            }
        },
        Statement::Other => Ok(Rewrite::Keep),
    }
}

/// What becomes of each of `statements`, in their order; the first
/// statement that cannot be rewritten ends it.
pub fn rewrite_block(statements: &Vec<Statement>, events: &EventTable, table: &str) -> (answer:
    Result<Vec<Rewrite>, SchemaError>)
    ensures
        match answer {
            Ok(rewrites) => rewrites@.len() == statements@.len() && forall|i: int|
                0 <= i < statements@.len() ==> rewrite_view(Ok(#[trigger] rewrites@[i]))
                    == rewritten(statements@[i]@, events@, table@),
            Err(e) => exists|i: int|
                0 <= i < statements@.len() && #[trigger] rewritten(
                    statements@[i]@,
                    events@,
                    table@,
                ) == Err::<RewriteView, SchemaError>(e) && forall|j: int|
                    0 <= j < i ==> (#[trigger] rewritten(statements@[j]@, events@, table@)) is Ok,
        },
{
    let mut rewrites: Vec<Rewrite> = Vec::new();
    let mut i: usize = 0;
    while i < statements.len()
        invariant
            i <= statements.len(),
            rewrites@.len() == i,
            forall|j: int|
                0 <= j < i ==> rewrite_view(Ok(#[trigger] rewrites@[j])) == rewritten(
                    statements@[j]@,
                    events@,
                    table@,
                ),
        decreases statements.len() - i,
    {
        match rewrite_statement(&statements[i], events, table) {
            Ok(rewrite) => {
                rewrites.push(rewrite);
            },
            Err(e) => {
                proof {
                    assert(rewritten(statements@[i as int]@, events@, table@) == Err::<
                        RewriteView,
                        SchemaError,
                    >(e));
                    assert forall|j: int| 0 <= j < i implies (#[trigger] rewritten(
                        statements@[j]@,
                        events@,
                        table@,
                    )) is Ok by {
                        assert(rewrite_view(Ok(rewrites@[j])) is Ok);
                    }
                }
                return Err(e);
            },
        }
        i = i + 1;
    }
    Ok(rewrites)
}

/// The item that makes the type called `struct_name` one whose values
/// observed work may return. Double quotes in the name are left out.
pub fn resulty_impl(struct_name: &str) -> (item: String)
    ensures
        item@ == "impl Resulty for "@ + struct_name@.filter(|c: char| c != '"') + " {}"@,
{
    let bare = without_quotes(struct_name);
    let mut item = "impl Resulty for ".to_owned();
    item.append(bare.as_str());
    item.append(" {}");
    item
}

} // verus!
