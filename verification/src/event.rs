//! Events: from one `Dialogue:` or `Comment:` row to a typed value.

use vstd::prelude::*;
use vstd::slice::slice_to_vec;
use crate::cursor::{is_word, word, Cursor};
use crate::dialogue::{parse_dialogue, runs_of};
use crate::error::{Diagnostic, Error};
use crate::format::{content_start, pairs, record_of, strip_keyword, FormatTable};
use crate::number::{integer_within, parse_integer, parse_time, time_value};
use crate::types::{runs_view, Run, RunView, Section};

verus! {

/// What an event is for.
#[derive(Clone, Copy, Debug, PartialEq, Eq, Structural)]
pub enum EventKind {
    /// A line that is shown.
    Dialogue,
    /// A line that is kept in the script and not shown.
    Comment,
}

/// One row of the events section.
#[derive(Clone, Debug, PartialEq, Eq)]
pub struct Event {
    /// Whether the row is shown.
    pub kind: EventKind,
    /// The layer: higher layers are drawn over lower ones.
    pub layer: i32,
    /// When the event begins, in hundredths of a second.
    pub start: u32,
    /// When the event ends, in hundredths of a second.
    pub end: u32,
    /// The name of the event's style. It is a name and no more: whether a
    /// style of that name exists is for the script to say.
    pub style: Vec<u8>,
    /// The text, in the order in which it is drawn.
    pub text: Vec<Run>,
}

/// What an [`Event`] holds, as a mathematical value.
pub ghost struct EventView {
    pub kind: EventKind,
    pub layer: i32,
    pub start: u32,
    pub end: u32,
    pub style: Seq<u8>,
    pub text: Seq<RunView>,
}

impl View for Event {
    type V = EventView;

    open spec fn view(&self) -> EventView {
        EventView {
            kind: self.kind,
            layer: self.layer,
            start: self.start,
            end: self.end,
            style: self.style@,
            text: runs_view(self.text@),
        }
    }
}

/// The diagnostic for record `record` of the events section.
pub open spec fn event_fault(record: usize, error: Error, span: Option<(usize, usize)>) -> Diagnostic {
    Diagnostic { section: Section::Events, record, error, span }
}

impl EventView {
    /// The event of kind `kind` in which nothing else is set.
    pub open spec fn blank(kind: EventKind) -> EventView {
        EventView { kind, layer: 0, start: 0, end: 0, style: Seq::empty(), text: Seq::empty() }
    }

    /// This event after the field called `name` was given the raw value
    /// `raw`, as record `record` of its section. `Layer` is a whole number
    /// of 32 bits, `Start` and `End` are times, `Style` is kept as it is
    /// and `Text` is split into runs. Any other name changes nothing.
    pub open spec fn assigned(self, name: Seq<u8>, raw: Seq<u8>, record: usize) -> Result<
        EventView,
        Diagnostic,
    > {
        if name == word("Layer") {
            match integer_within(raw, i32::MIN as int, i32::MAX as int) {
                Some(v) => Ok(EventView { layer: v as i32, ..self }),
                None => Err(event_fault(record, Error::FieldInvalid, None)),
            }
        } else if name == word("Start") {
            match time_value(raw) {
                Some(t) => Ok(EventView { start: t, ..self }),
                None => Err(event_fault(record, Error::FieldInvalid, None)),
            }
        } else if name == word("End") {
            match time_value(raw) {
                Some(t) => Ok(EventView { end: t, ..self }),
                None => Err(event_fault(record, Error::FieldInvalid, None)),
            }
        } else if name == word("Style") {
            Ok(EventView { style: raw, ..self })
        } else if name == word("Text") {
            match runs_of(raw) {
                Ok(runs) => Ok(EventView { text: runs, ..self }),
                Err(fault) => Err(
                    event_fault(record, fault.error, Some((fault.start, fault.end))),
                ),
            }
        } else {
            Ok(self)
        }
    }
}

/// The event that the first `n` fields of `fields` make, applied in order
/// to a blank one of kind `kind`, or the first error among them.
pub open spec fn event_from(
    fields: Seq<(Seq<u8>, Seq<u8>)>,
    n: int,
    kind: EventKind,
    record: usize,
) -> Result<EventView, Diagnostic>
    decreases n,
{
    if n <= 0 {
        Ok(EventView::blank(kind))
    } else {
        match event_from(fields, n - 1, kind, record) {
            Ok(event) => event.assigned(fields[n - 1].0, fields[n - 1].1, record),
            Err(d) => Err(d),
        }
    }
}

/// The event that `fields` stand for.
pub open spec fn event_of(fields: Seq<(Seq<u8>, Seq<u8>)>, kind: EventKind, record: usize) -> Result<
    EventView,
    Diagnostic,
> {
    event_from(fields, fields.len() as int, kind, record)
}

/// The kind of the event row `line` and the index at which its values
/// begin, if it is an event row.
pub open spec fn event_start(line: Seq<u8>) -> Option<(EventKind, int)> {
    match content_start(line, word("Dialogue:")) {
        Some(start) => Some((EventKind::Dialogue, start)),
        None => match content_start(line, word("Comment:")) {
            Some(start) => Some((EventKind::Comment, start)),
            None => None,
        },
    }
}

/// The event that the row `line` stands for under the declaration
/// `names`, as record `record` of its section.
pub open spec fn event_row(names: Seq<Seq<u8>>, line: Seq<u8>, record: usize) -> Result<
    EventView,
    Diagnostic,
> {
    match event_start(line) {
        None => Err(event_fault(record, Error::StructureInvalid, None)),
        Some((kind, start)) => match record_of(names, line.skip(start)) {
            Ok(fields) => event_of(fields, kind, record),
            Err(e) => Err(event_fault(record, e, None)),
        },
    }
}

/// Whether `r` is the outcome `m`, its event taken as a mathematical value.
pub open spec fn event_agrees(r: Result<Event, Diagnostic>, m: Result<EventView, Diagnostic>) -> bool {
    match r {
        Ok(event) => m == Ok::<EventView, Diagnostic>(event@),
        Err(d) => m == Err::<EventView, Diagnostic>(d),
    }
}

/// Once a field of an event has failed, the fields after it change
/// nothing: the error stays.
pub proof fn lemma_event_error_stays(
    fields: Seq<(Seq<u8>, Seq<u8>)>,
    k: int,
    n: int,
    kind: EventKind,
    record: usize,
)
    requires
        0 <= k <= n,
        event_from(fields, k, kind, record) is Err,
    ensures
        event_from(fields, n, kind, record) == event_from(fields, k, kind, record),
    decreases n - k,
{
    if k < n {
        lemma_event_error_stays(fields, k, n - 1, kind, record);
    }
}

/// The kind of the event row `line` and where its values begin.
pub fn event_keyword(line: &[u8]) -> (r: Option<(EventKind, usize)>)
    ensures
        match r {
            Some((kind, start)) => event_start(line@) == Some((kind, start as int)) && start
                <= line@.len(),
            None => event_start(line@).is_none(),
        },
{
    match strip_keyword(line, "Dialogue:") {
        Some(start) => Some((EventKind::Dialogue, start)),
        None => match strip_keyword(line, "Comment:") {
            Some(start) => Some((EventKind::Comment, start)),
            None => None,
        },
    }
}

impl Event {
    /// The event of kind `kind` in which nothing else is set.
    pub fn blank(kind: EventKind) -> (event: Event)
        ensures
            event@ == EventView::blank(kind),
    {
        let event = Event {
            kind,
            layer: 0,
            start: 0,
            end: 0,
            style: Vec::new(),
            text: Vec::new(),
        };
        assert(event@.text =~= Seq::<RunView>::empty());
        event
    }

    /// Gives the field called `name` the raw value `raw`. The event is
    /// record `record` of its section, which an error will say.
    pub fn assign(&mut self, name: &[u8], raw: &[u8], record: usize) -> (r: Result<(), Diagnostic>)
        ensures
            match r {
                Ok(_) => old(self)@.assigned(name@, raw@, record) == Ok::<EventView, Diagnostic>(
                    final(self)@,
                ),
                Err(d) => old(self)@.assigned(name@, raw@, record) == Err::<EventView, Diagnostic>(
                    d,
                ) && final(self)@ == old(self)@,
            },
    {
        let invalid = Diagnostic {
            section: Section::Events,
            record,
            error: Error::FieldInvalid,
            span: None,
        };
        if is_word(name, "Layer") {
            match parse_integer(raw, i32::MIN as i64, i32::MAX as i64) {
                Some(v) => {
                    self.layer = v as i32;
                    Ok(())
                },
                None => Err(invalid),
            }
        } else if is_word(name, "Start") {
            match parse_time(raw) {
                Some(t) => {
                    self.start = t;
                    Ok(())
                },
                None => Err(invalid),
            }
        } else if is_word(name, "End") {
            match parse_time(raw) {
                Some(t) => {
                    self.end = t;
                    Ok(())
                },
                None => Err(invalid),
            }
        } else if is_word(name, "Style") {
            self.style = slice_to_vec(raw);
            Ok(())
        } else if is_word(name, "Text") {
            match parse_dialogue(raw) {
                Ok(runs) => {
                    self.text = runs;
                    Ok(())
                },
                Err(fault) => Err(
                    Diagnostic {
                        section: Section::Events,
                        record,
                        error: fault.error,
                        span: Some((fault.start, fault.end)),
                    },
                ),
            }
        } else {
            Ok(())
        }
    }
}

/// Decodes the fields of one event row into an event of kind `kind`.
///
/// The fields are taken in order, and the first that fails decides the
/// error, which names `record` as its record.
pub fn decode_event(fields: &Vec<(Vec<u8>, Vec<u8>)>, kind: EventKind, record: usize) -> (event:
    Result<Event, Diagnostic>)
    ensures
        event_agrees(event, event_of(pairs(fields@), kind, record)),
{
    let mut event = Event::blank(kind);
    let n = fields.len();
    let mut k: usize = 0;
    while k < n
        invariant
            k <= n,
            n == fields@.len(),
            event_from(pairs(fields@), k as int, kind, record) == Ok::<EventView, Diagnostic>(
                event@,
            ),
        decreases n - k,
    {
        let field = &fields[k];
        match event.assign(field.0.as_slice(), field.1.as_slice(), record) {
            Ok(_) => {},
            Err(d) => {
                proof {
                    lemma_event_error_stays(pairs(fields@), k + 1, n as int, kind, record);
                }
                return Err(d);
            },
        }
        k = k + 1;
    }
    Ok(event)
}

/// Parses one `Dialogue:` or `Comment:` row under the declaration
/// `format`, as record `record` of its section.
///
/// A row that opens with neither keyword or that has fewer values than
/// the declaration has names is `StructureInvalid`; a layer or a time that
/// is none is `FieldInvalid`; a fault in the text is what
/// [`parse_dialogue`] says, with the bytes at fault.
pub fn parse_event(format: &FormatTable, line: &[u8], record: usize) -> (event: Result<
    Event,
    Diagnostic,
>)
    ensures
        event_agrees(event, event_row(format@, line@, record)),
{
    let (kind, start) = match event_keyword(line) {
        Some(found) => found,
        None => {
            return Err(
                Diagnostic {
                    section: Section::Events,
                    record,
                    error: Error::StructureInvalid,
                    span: None,
                },
            );
        },
    };
    let mut c = Cursor::new(line);
    c.seek(start);
    let row = c.rest();
    assert(row@ =~= line@.skip(start as int));
    match format.apply(row) {
        Ok(fields) => decode_event(&fields, kind, record),
        Err(e) => Err(Diagnostic { section: Section::Events, record, error: e, span: None }),
    }
}

} // verus!
