//! The products of a scan step: tags, text runs, and the errors that a
//! malformed tag or attribute raises. All data borrows from the buffer
//! being scanned; nothing is copied.

use vstd::prelude::*;

verus! {

/// A failure while scanning a tag or an attribute. Every variant carries a
/// byte offset: absolute for the reader, relative to the tag's content for
/// the attribute cursor.
#[derive(Debug, Clone, Copy, PartialEq, Eq, Structural)]
pub enum Error {
    /// A tag's name is empty or begins with a disallowed byte,
    /// as in `<>`, `</>`, `<0Name>` or `<.Name>`.
    InvalidName(usize),
    /// An attribute is malformed: its key is empty, no `=` separator was
    /// found, or no opening quote was found before the content ended,
    /// as in `<Name a>`, `<Name ="1">` or `<Name a= >`.
    InvalidAttribute(usize),
    /// The input ended while a tag or a quoted value was still open,
    /// as in `<Name` or `<Name a="1>`.
    UnexpectedEof(usize),
}

/// The three recognized tag shapes.
#[derive(Debug, Clone, Copy, PartialEq, Eq, Structural)]
pub enum TagKind {
    /// `<Name ...>`
    Open,
    /// `</Name ...>`
    Close,
    /// `<Name .../>`
    Empty,
}

/// What a [`Tag`] stands for: the bytes of its name and of its content.
pub struct TagView {
    pub name: Seq<u8>,
    pub content: Seq<u8>,
}

/// A recognized tag: a view of its name and a view of its content, the raw
/// attribute region between the name and the terminator. The name carries no
/// `/` mark of close or empty tags; the content is left un-parsed until
/// attributes are requested.
#[derive(Debug, Clone)]
pub struct Tag<'x> {
    name: &'x [u8],
    content: &'x [u8],
}

impl<'x> View for Tag<'x> {
    type V = TagView;

    closed spec fn view(&self) -> TagView {
        TagView { name: self.name@, content: self.content@ }
    }
}

impl<'x> Tag<'x> {
    pub(crate) fn new(name: &'x [u8], content: &'x [u8]) -> (t: Self)
        ensures
            t@.name == name@,
            t@.content == content@,
    {
        Tag { name, content }
    }

    /// The content of the tag: everything after the name up to but not
    /// including the end of the tag, without the `/` of an empty tag.
    pub fn content(&self) -> (r: &'x [u8])
        ensures
            r@ == self@.content,
    {
        self.content
    }

    /// The name of the tag, without the `/` of a close tag.
    pub fn name(&self) -> (r: &'x [u8])
        ensures
            r@ == self@.name,
    {
        self.name
    }

    /// A cursor over the tag's attributes, if any.
    pub fn attributes(&self) -> (it: crate::attr::AttributeIter<'x>)
        ensures
            it@.c == self@.content,
            it@.pos == 0,
    {
        crate::attr::AttributeIter::new(self.content)
    }
}

/// One run of text, inside or outside of elements.
#[derive(Debug, Clone)]
pub struct Text<'x> {
    content: &'x [u8],
}

impl<'x> View for Text<'x> {
    type V = Seq<u8>;

    closed spec fn view(&self) -> Seq<u8> {
        self.content@
    }
}

impl<'x> Text<'x> {
    pub(crate) fn new(content: &'x [u8]) -> (t: Self)
        ensures
            t@ == content@,
    {
        Text { content }
    }

    /// The bytes of the text run, trimmed of surrounding whitespace when the
    /// reader's trimming switch was on as the run was emitted.
    pub fn content(&self) -> (r: &'x [u8])
        ensures
            r@ == self@,
    {
        self.content
    }
}

/// Processed data, produced one event per reader step, in document order.
#[derive(Debug, Clone)]
pub enum Event<'x> {
    /// An `<Open>` tag.
    OpenTag(Tag<'x>),
    /// A `</Close>` tag.
    CloseTag(Tag<'x>),
    /// An `<Empty />` tag.
    EmptyTag(Tag<'x>),
    /// Text between tags. With trimming enabled, a run that is empty after
    /// trimming is skipped, not emitted.
    Text(Text<'x>),
}

} // verus!
