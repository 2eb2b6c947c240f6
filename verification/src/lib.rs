//! A lenient, single-pass tokenizer for XML-like byte buffers.
//!
//! The reader walks a borrowed buffer and hands out one structural event per
//! call: an open tag, a close tag, a self-closing (empty) tag, or a run of
//! text. It does not validate the document against the XML standard; it
//! accepts whatever satisfies the minimal tag and attribute grammar and
//! reports byte-accurate offsets when even that fails. No bytes are copied:
//! every event borrows from the original buffer.

pub mod attr;
pub mod encoding;
pub mod event;
pub mod laws;
pub mod model;
pub mod reader;
pub mod scan;

pub use attr::{AttrView, Attribute, AttributeIter};
pub use event::{Error, Event, Tag, TagKind, TagView, Text};
pub use model::{AttrModel, AttrStep, ReaderState, ScanModel, SpecEvent, SpecOutcome};
pub use reader::Reader;
