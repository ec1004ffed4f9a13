//! Parser for Advanced SubStation Alpha / SubStation Alpha subtitle scripts.
//!
//! A script is text in sections. [`document`] finds the sections,
//! [`format`] maps the rows of a section onto the names that its format
//! line declares, [`style`] and [`event`] decode the rows, and
//! [`dialogue`] with [`overrides`] decodes the markup in an event's text.
//! All of them read their input through a [`cursor::Cursor`].

pub mod cursor;
pub mod dialogue;
pub mod document;
pub mod error;
pub mod event;
pub mod format;
pub mod number;
pub mod overrides;
pub mod script;
pub mod style;
pub mod types;
pub mod uuenc;

pub use crate::document::{parse_document, parse_sections, Policy};
pub use crate::error::{Diagnostic, Error};
pub use crate::script::{Outcome, Script};
