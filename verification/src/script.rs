//! A parsed script and what is known of it.

use vstd::prelude::*;
use vstd::slice::slice_to_vec;
use vstd::string::StringSliceAdditionalSpecFns;
use crate::cursor::same_bytes;
use crate::document::{document_of, parse_document, Policy};
use crate::error::{Diagnostic, Error};
use crate::event::{Event, EventView};
use crate::format::pairs;
use crate::style::{Style, StyleView};

verus! {

/// Each style of `v` as a mathematical value.
pub open spec fn styles_view(v: Seq<Style>) -> Seq<StyleView> {
    Seq::new(v.len(), |i: int| v[i]@)
}

/// Each event of `v` as a mathematical value.
pub open spec fn events_view(v: Seq<Event>) -> Seq<EventView> {
    Seq::new(v.len(), |i: int| v[i]@)
}

/// Whether one of `styles` is called `name`.
pub open spec fn has_style(styles: Seq<StyleView>, name: Seq<u8>) -> bool {
    exists|i: int| 0 <= i < styles.len() && (#[trigger] styles[i]).name == name
}

/// A script: its text, and what the text was found to hold.
#[derive(Clone, Debug, PartialEq, Eq)]
pub struct Script {
    /// The text of the script.
    pub buf: Vec<u8>,
    /// The pairs of the script info section, in the order of the text. A
    /// key may come more than once; the last one counts.
    pub info: Vec<(Vec<u8>, Vec<u8>)>,
    /// The styles, in the order of the text. No two have the same name.
    pub styles: Vec<Style>,
    /// The events, in the order of the text.
    pub events: Vec<Event>,
    /// The sections that are not decoded, fonts among them: each with the
    /// name in its header and its body as it stands.
    pub blocks: Vec<(Vec<u8>, Vec<u8>)>,
}

/// What a [`Script`] holds, as a mathematical value.
pub ghost struct ScriptView {
    pub buf: Seq<u8>,
    pub info: Seq<(Seq<u8>, Seq<u8>)>,
    pub styles: Seq<StyleView>,
    pub events: Seq<EventView>,
    pub blocks: Seq<(Seq<u8>, Seq<u8>)>,
}

impl View for Script {
    type V = ScriptView;

    open spec fn view(&self) -> ScriptView {
        ScriptView {
            buf: self.buf@,
            info: pairs(self.info@),
            styles: styles_view(self.styles@),
            events: events_view(self.events@),
            blocks: pairs(self.blocks@),
        }
    }
}

impl ScriptView {
    /// The script with the text `buf` of which nothing is known yet.
    pub open spec fn unread(buf: Seq<u8>) -> ScriptView {
        ScriptView {
            buf,
            info: Seq::empty(),
            styles: Seq::empty(),
            events: Seq::empty(),
            blocks: Seq::empty(),
        }
    }

    /// Whether every style has a name and no two styles share one.
    pub open spec fn well_formed(self) -> bool {
        &&& forall|i: int| 0 <= i < self.styles.len() ==> (#[trigger] self.styles[i]).name.len() > 0
        &&& forall|i: int, j: int|
            0 <= i < j < self.styles.len() ==> (#[trigger] self.styles[i]).name
                != (#[trigger] self.styles[j]).name
    }

    /// The index of the style called `name`, if there is one.
    pub open spec fn style_index(self, name: Seq<u8>) -> Option<int> {
        if has_style(self.styles, name) {
            Some(choose|i: int| 0 <= i < self.styles.len() && (#[trigger] self.styles[i]).name == name)
        } else {
            None
        }
    }

    /// The index of the pair that decides the value of `key`: the last
    /// among the first `n` pairs of the info that has this key.
    pub open spec fn info_index(self, key: Seq<u8>, n: int) -> Option<int>
        decreases n,
    {
        if n <= 0 {
            None
        } else if self.info[n - 1].0 == key {
            Some(n - 1)
        } else {
            self.info_index(key, n - 1)
        }
    }
}

/// The index of the first of `styles` that is called `name`.
pub fn find_style(styles: &Vec<Style>, name: &[u8]) -> (r: Option<usize>)
    ensures
        match r {
            Some(i) => i < styles@.len() && styles@[i as int]@.name == name@ && forall|j: int|
                0 <= j < i ==> (#[trigger] styles@[j])@.name != name@,
            None => forall|j: int| 0 <= j < styles@.len() ==> (#[trigger] styles@[j])@.name != name@,
        },
        r.is_some() == has_style(styles_view(styles@), name@),
{
    let mut i: usize = 0;
    while i < styles.len()
        invariant
            i <= styles@.len(),
            forall|j: int| 0 <= j < i ==> (#[trigger] styles@[j])@.name != name@,
        decreases styles@.len() - i,
    {
        if same_bytes(styles[i].name.as_slice(), name) {
            assert(styles_view(styles@)[i as int].name == name@);
            return Some(i);
        }
        i = i + 1;
    }
    proof {
        if has_style(styles_view(styles@), name@) {
            let k = choose|k: int|
                0 <= k < styles_view(styles@).len() && (#[trigger] styles_view(styles@)[k]).name
                    == name@;
            assert(styles@[k]@.name == name@);
        }
    }
    None
}

impl Script {
    /// A script with the text `s`, of which nothing is read yet.
    pub fn from_str(s: &str) -> (script: Self)
        ensures
            script@ == ScriptView::unread(s.spec_bytes()),
    {
        let script = Script {
            buf: slice_to_vec(s.as_bytes()),
            info: Vec::new(),
            styles: Vec::new(),
            events: Vec::new(),
            blocks: Vec::new(),
        };
        proof {
            assert(script@.info =~= Seq::<(Seq<u8>, Seq<u8>)>::empty());
            assert(script@.blocks =~= Seq::<(Seq<u8>, Seq<u8>)>::empty());
            assert(script@.styles =~= Seq::<StyleView>::empty());
            assert(script@.events =~= Seq::<EventView>::empty());
        }
        script
    }

    /// Reads the text of the script under the policy `policy` and fills
    /// in what it holds. The diagnostics of the records that were left out
    /// come back; under `FailFast` there are none. On an error the script
    /// stays as it was.
    pub fn init_with(&mut self, policy: Policy) -> (r: Result<Vec<Diagnostic>, Diagnostic>)
        ensures
            match r {
                Ok(diagnostics) => document_of(old(self)@.buf, policy) == Ok::<Parsed, Diagnostic>(
                    Parsed { script: final(self)@, diagnostics: diagnostics@ },
                ) && final(self)@.well_formed() && (policy == Policy::FailFast
                    ==> diagnostics@.len() == 0),
                Err(d) => document_of(old(self)@.buf, policy) == Err::<Parsed, Diagnostic>(d)
                    && *final(self) == *old(self),
            },
    {
        match parse_document(self.buf.as_slice(), policy) {
            Ok(outcome) => {
                *self = outcome.script;
                Ok(outcome.diagnostics)
            },
            Err(d) => Err(d),
        }
    }

    /// Reads the text of the script and fills in what it holds. The first
    /// record that cannot be decoded ends the parse, and on an error the
    /// script stays as it was.
    pub fn init(&mut self) -> (r: Result<(), Diagnostic>)
        ensures
            match r {
                Ok(_) => document_of(old(self)@.buf, Policy::FailFast) == Ok::<Parsed, Diagnostic>(
                    Parsed { script: final(self)@, diagnostics: Seq::empty() },
                ) && final(self)@.well_formed(),
                Err(d) => document_of(old(self)@.buf, Policy::FailFast) == Err::<
                    Parsed,
                    Diagnostic,
                >(d) && *final(self) == *old(self),
            },
    {
        match self.init_with(Policy::FailFast) {
            Ok(diagnostics) => {
                assert(diagnostics@ =~= Seq::<Diagnostic>::empty());
                Ok(())
            },
            Err(d) => Err(d),
        }
    }

    /// The index of the style called `name`.
    ///
    /// In a well-formed script at most one style has the name, so the
    /// index is that of the only one.
    pub fn style_named(&self, name: &[u8]) -> (r: Option<usize>)
        ensures
            match r {
                Some(i) => i < self@.styles.len() && self@.styles[i as int].name == name@,
                None => !has_style(self@.styles, name@),
            },
            self@.well_formed() ==> (r matches Some(i) ==> self@.style_index(name@) == Some(
                i as int,
            )),
    {
        let r = find_style(&self.styles, name);
        proof {
            match r {
                Some(i) => {
                    assert(self@.styles[i as int].name == name@);
                    if self@.well_formed() {
                        let k = self@.style_index(name@).unwrap();
                        assert(self@.styles[k].name == name@);
                        if k < i {
                            assert(self@.styles[k].name != self@.styles[i as int].name);
                        }
                        if i < k {
                            assert(self@.styles[i as int].name != self@.styles[k].name);
                        }
                    }
                },
                None => {},
            }
        }
        r
    }

    /// The index of the style that `event` names.
    ///
    /// An event may name a style that the script does not define. That
    /// is no fault of the parse; it shows here, as `StyleUndefined`.
    pub fn style_of(&self, event: &Event) -> (r: Result<usize, Error>)
        ensures
            match r {
                Ok(i) => i < self@.styles.len() && self@.styles[i as int].name == event@.style,
                Err(e) => e == Error::StyleUndefined && !has_style(self@.styles, event@.style),
            },
    {
        match self.style_named(event.style.as_slice()) {
            Some(i) => Ok(i),
            None => Err(Error::StyleUndefined),
        }
    }

    /// The index of the pair of the info that decides the value of `key`:
    /// the last one with this key.
    pub fn info_named(&self, key: &[u8]) -> (r: Option<usize>)
        ensures
            match r {
                Some(i) => self@.info_index(key@, self@.info.len() as int) == Some(i as int) && i
                    < self@.info.len(),
                None => self@.info_index(key@, self@.info.len() as int).is_none(),
            },
    {
        let mut i: usize = self.info.len();
        while i > 0
            invariant
                i <= self.info@.len(),
                self@.info_index(key@, self@.info.len() as int) == self@.info_index(key@, i as int),
            decreases i,
        {
            if same_bytes(self.info[i - 1].0.as_slice(), key) {
                return Some(i - 1);
            }
            i = i - 1;
        }
        None
    }
}

/// What a parse has found so far: the script, and the records that were
/// left out of it with the reason for each.
#[derive(Clone, Debug, PartialEq, Eq)]
pub struct Outcome {
    pub script: Script,
    pub diagnostics: Vec<Diagnostic>,
}

/// What an [`Outcome`] holds, as a mathematical value.
pub ghost struct Parsed {
    pub script: ScriptView,
    pub diagnostics: Seq<Diagnostic>,
}

impl View for Outcome {
    type V = Parsed;

    open spec fn view(&self) -> Parsed {
        Parsed { script: self.script@, diagnostics: self.diagnostics@ }
    }
}

impl Parsed {
    /// This state with one more pair of info.
    pub open spec fn with_info(self, pair: (Seq<u8>, Seq<u8>)) -> Parsed {
        Parsed { script: ScriptView { info: self.script.info.push(pair), ..self.script }, ..self }
    }

    /// This state with one more style.
    pub open spec fn with_style(self, style: StyleView) -> Parsed {
        Parsed {
            script: ScriptView { styles: self.script.styles.push(style), ..self.script },
            ..self
        }
    }

    /// This state with one more event.
    pub open spec fn with_event(self, event: EventView) -> Parsed {
        Parsed {
            script: ScriptView { events: self.script.events.push(event), ..self.script },
            ..self
        }
    }

    /// This state with one more section kept as it stands.
    pub open spec fn with_block(self, block: (Seq<u8>, Seq<u8>)) -> Parsed {
        Parsed {
            script: ScriptView { blocks: self.script.blocks.push(block), ..self.script },
            ..self
        }
    }

    /// This state with one more diagnostic.
    pub open spec fn with_diagnostic(self, d: Diagnostic) -> Parsed {
        Parsed { diagnostics: self.diagnostics.push(d), ..self }
    }
}

} // verus!
