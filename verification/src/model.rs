//! The mathematical model of the tokenizer: what one step of the scanner or
//! of the attribute cursor yields, stated over byte sequences. The exec code
//! in `reader` and `attr` is proved to follow these functions step by step.

use vstd::prelude::*;

use crate::event::{Error, Event, TagKind};
use crate::scan::{
    find_byte_spec, find_nonws_spec, find_quote_spec, find_ws_spec, name_start_ok, trim_spec,
};

verus! {

/// The discrete state of the scanner.
#[derive(Debug, Clone, Copy, PartialEq, Eq, Structural)]
pub enum ReaderState {
    /// Between tags, looking for text or the next `<`.
    Searching,
    /// Positioned one byte past a `<`, about to classify the tag.
    LocatedTag,
    /// The end of the input was reached; no further events.
    End,
}

/// Everything a [`crate::reader::Reader`] is: the source bytes, the cursor,
/// the state, and the trimming switch.
pub struct ScanModel {
    pub s: Seq<u8>,
    pub pos: int,
    pub state: ReaderState,
    pub trim: bool,
}

impl ScanModel {
    /// The cursor stays within the buffer, and in `LocatedTag` it sits one
    /// byte past a `<`.
    pub open spec fn wf(self) -> bool {
        &&& 0 <= self.pos <= self.s.len()
        &&& self.state is LocatedTag ==> self.pos >= 1 && self.s[self.pos - 1] == 0x3c
    }
}

/// The model's view of one emitted event.
pub enum SpecEvent {
    Tag { kind: TagKind, name: Seq<u8>, content: Seq<u8> },
    Text { content: Seq<u8> },
}

/// What one scanner step yields: nothing further, one event, or an error.
pub enum SpecOutcome {
    Done,
    Emit(SpecEvent),
    Fail(Error),
}

/// The model of an attribute cursor: the content bytes and its offset.
pub struct AttrModel {
    pub c: Seq<u8>,
    pub pos: int,
}

impl AttrModel {
    pub open spec fn wf(self) -> bool {
        0 <= self.pos <= self.c.len()
    }
}

/// What one attribute-cursor step yields.
pub enum AttrStep {
    Finished,
    Pair { key: Seq<u8>, value: Seq<u8> },
    Fail(Error),
}

/// The inner span of a tag is a close tag when it begins with `/`.
pub open spec fn closing(inner: Seq<u8>) -> bool {
    inner.len() > 0 && inner[0] == 0x2f
}

/// The inner span of a tag is an empty (self-closing) tag when it ends
/// with `/`.
pub open spec fn self_closing(inner: Seq<u8>) -> bool {
    inner.len() > 0 && inner.last() == 0x2f
}

/// The head of the inner span: everything before the first whitespace byte,
/// or the whole span if there is none.
pub open spec fn inner_head(inner: Seq<u8>) -> Seq<u8> {
    inner.subrange(0, find_ws_spec(inner, 0))
}

/// The tail of the inner span: everything after the first whitespace byte,
/// or empty if there is none.
pub open spec fn inner_tail(inner: Seq<u8>) -> Seq<u8> {
    let sp = find_ws_spec(inner, 0);
    if sp == inner.len() {
        Seq::empty()
    } else {
        inner.subrange(sp + 1, inner.len() as int)
    }
}

/// The content of the tag: the tail, with the trailing `/` of an empty tag
/// dropped when the slash ended up in the tail.
pub open spec fn tag_content(inner: Seq<u8>) -> Seq<u8> {
    let t = inner_tail(inner);
    if self_closing(inner) && t.len() > 0 {
        t.drop_last()
    } else {
        t
    }
}

/// The name of the tag: the head, with the trailing `/` of an empty tag
/// dropped when the tail is empty, and the leading `/` of a close tag
/// dropped. The two trims are independent, which is what accepts the
/// `</Name/>` form as a close tag.
pub open spec fn tag_name(inner: Seq<u8>) -> Seq<u8> {
    let h = inner_head(inner);
    let h1 = if self_closing(inner) && inner_tail(inner).len() == 0 {
        h.drop_last()
    } else {
        h
    };
    if closing(inner) && h1.len() > 0 {
        h1.drop_first()
    } else {
        h1
    }
}

/// The tag is recognized when its name is non-empty and starts with an
/// allowed byte.
pub open spec fn tag_ok(inner: Seq<u8>) -> bool {
    tag_name(inner).len() > 0 && name_start_ok(tag_name(inner)[0])
}

/// The shape of a recognized tag. A close tag wins over an empty one, so
/// `</Name/>` is a close tag.
pub open spec fn tag_kind(inner: Seq<u8>) -> TagKind {
    if closing(inner) {
        TagKind::Close
    } else if self_closing(inner) {
        TagKind::Empty
    } else {
        TagKind::Open
    }
}

/// One step from `LocatedTag`: find the `>`, split the inner span, and emit
/// the tag, or fail at the tag's starting offset without moving.
pub open spec fn tag_step(m: ScanModel) -> (ScanModel, SpecOutcome)
    recommends
        m.wf(),
        m.state is LocatedTag,
{
    let gt = find_byte_spec(m.s, 0x3e, m.pos);
    if gt == m.s.len() {
        (m, SpecOutcome::Fail(Error::UnexpectedEof((m.pos - 1) as usize)))
    } else {
        let inner = m.s.subrange(m.pos, gt);
        if tag_ok(inner) {
            (
                ScanModel { pos: gt + 1, state: ReaderState::Searching, ..m },
                SpecOutcome::Emit(
                    SpecEvent::Tag {
                        kind: tag_kind(inner),
                        name: tag_name(inner),
                        content: tag_content(inner),
                    },
                ),
            )
        } else {
            (m, SpecOutcome::Fail(Error::InvalidName((m.pos - 1) as usize)))
        }
    }
}

/// One step from `Searching`: take the text up to the next `<` or to the end,
/// trim it if trimming is on, and emit it; an empty candidate is skipped, the
/// step going straight on to the located tag or to the end.
pub open spec fn search_step(m: ScanModel) -> (ScanModel, SpecOutcome)
    recommends
        m.wf(),
        m.state is Searching,
{
    let lt = find_byte_spec(m.s, 0x3c, m.pos);
    let found = lt < m.s.len();
    let raw = m.s.subrange(m.pos, lt);
    let text = if m.trim {
        trim_spec(raw)
    } else {
        raw
    };
    let m1 = if found {
        ScanModel { pos: lt + 1, state: ReaderState::LocatedTag, ..m }
    } else {
        ScanModel { state: ReaderState::End, ..m }
    };
    if text.len() > 0 {
        (m1, SpecOutcome::Emit(SpecEvent::Text { content: text }))
    } else if found {
        tag_step(m1)
    } else {
        (m1, SpecOutcome::Done)
    }
}

/// One step of the scanner, whatever its state.
pub open spec fn scan_step(m: ScanModel) -> (ScanModel, SpecOutcome)
    recommends
        m.wf(),
{
    match m.state {
        ReaderState::Searching => search_step(m),
        ReaderState::LocatedTag => tag_step(m),
        ReaderState::End => (m, SpecOutcome::Done),
    }
}

/// The model after the trimming switch is set.
pub open spec fn with_trim(m: ScanModel, trim: bool) -> ScanModel {
    ScanModel { trim, ..m }
}

/// The exec event carries exactly the byte views the model names.
pub open spec fn event_matches<'x>(e: Event<'x>, se: SpecEvent) -> bool {
    match (e, se) {
        (Event::OpenTag(t), SpecEvent::Tag { kind, name, content }) => {
            kind is Open && t@.name == name && t@.content == content
        },
        (Event::CloseTag(t), SpecEvent::Tag { kind, name, content }) => {
            kind is Close && t@.name == name && t@.content == content
        },
        (Event::EmptyTag(t), SpecEvent::Tag { kind, name, content }) => {
            kind is Empty && t@.name == name && t@.content == content
        },
        (Event::Text(t), SpecEvent::Text { content }) => t@ == content,
        _ => false,
    }
}

/// The exec result of a reader step carries exactly what the model's outcome
/// names.
pub open spec fn outcome_matches<'x>(
    r: Option<Result<Event<'x>, Error>>,
    out: SpecOutcome,
) -> bool {
    match (r, out) {
        (None, SpecOutcome::Done) => true,
        (Some(Result::Ok(e)), SpecOutcome::Emit(se)) => event_matches(e, se),
        (Some(Result::Err(e)), SpecOutcome::Fail(e2)) => e == e2,
        _ => false,
    }
}

/// One reader step took the model from `pre` to `post` and returned `r`:
/// the new model and the result are the ones `scan_step` names.
pub open spec fn step_post<'x>(
    pre: ScanModel,
    post: ScanModel,
    r: Option<Result<Event<'x>, Error>>,
) -> bool {
    post == scan_step(pre).0 && outcome_matches(r, scan_step(pre).1)
}

/// One step of the attribute cursor: skip whitespace, split the key at `=`,
/// and take the value between the first quote and its matching partner.
/// Errors are anchored at the first byte of the attempted attribute.
pub open spec fn attr_step(m: AttrModel) -> (AttrModel, AttrStep)
    recommends
        m.wf(),
{
    let p = find_nonws_spec(m.c, m.pos);
    if p == m.c.len() {
        (m, AttrStep::Finished)
    } else {
        let eq = find_byte_spec(m.c, 0x3d, p);
        if eq == m.c.len() {
            (AttrModel { pos: p, ..m }, AttrStep::Fail(Error::InvalidAttribute(p as usize)))
        } else {
            let key = trim_spec(m.c.subrange(p, eq));
            if key.len() == 0 {
                (AttrModel { pos: eq, ..m }, AttrStep::Fail(Error::InvalidAttribute(p as usize)))
            } else {
                let q = find_quote_spec(m.c, eq + 1);
                if q == m.c.len() {
                    (
                        AttrModel { pos: eq + 1, ..m },
                        AttrStep::Fail(Error::InvalidAttribute(p as usize)),
                    )
                } else {
                    let close = find_byte_spec(m.c, m.c[q], q + 1);
                    if close == m.c.len() {
                        (
                            AttrModel { pos: q + 1, ..m },
                            AttrStep::Fail(Error::UnexpectedEof(p as usize)),
                        )
                    } else {
                        (
                            AttrModel { pos: close + 1, ..m },
                            AttrStep::Pair { key, value: m.c.subrange(q + 1, close) },
                        )
                    }
                }
            }
        }
    }
}

/// The exec result of a cursor step carries exactly what the model's outcome
/// names.
pub open spec fn attr_matches<'x>(
    r: Option<Result<crate::attr::Attribute<'x>, Error>>,
    out: AttrStep,
) -> bool {
    match (r, out) {
        (None, AttrStep::Finished) => true,
        (Some(Result::Ok(a)), AttrStep::Pair { key, value }) => {
            a@.key == key && a@.value == value
        },
        (Some(Result::Err(e)), AttrStep::Fail(e2)) => e == e2,
        _ => false,
    }
}

/// One cursor step took the model from `pre` to `post` and returned `r`:
/// the new model and the result are the ones `attr_step` names.
pub open spec fn attr_post<'x>(
    pre: AttrModel,
    post: AttrModel,
    r: Option<Result<crate::attr::Attribute<'x>, Error>>,
) -> bool {
    post == attr_step(pre).0 && attr_matches(r, attr_step(pre).1)
}

} // verus!
