//! The attribute cursor: a forward-only iterator over the key/value pairs
//! held in a tag's content span.

use vstd::prelude::*;
use vstd::slice::{slice_index_get, slice_subrange};

use crate::event::Error;
use crate::model::attr_post;
use crate::scan::{
    find_byte_from, find_nonws_from, find_quote_from, lemma_find_byte, lemma_find_nonws,
    lemma_find_quote, trim_whitespace,
};

verus! {

/// What an [`Attribute`] stands for: the bytes of its key and of its value.
pub struct AttrView {
    pub key: Seq<u8>,
    pub value: Seq<u8>,
}

/// One key/value pair. The key is trimmed of surrounding whitespace; the
/// value is the literal bytes between the matching quotes, not unescaped.
#[derive(Debug, Clone)]
pub struct Attribute<'x> {
    key: &'x [u8],
    value: &'x [u8],
}

impl<'x> View for Attribute<'x> {
    type V = AttrView;

    closed spec fn view(&self) -> AttrView {
        AttrView { key: self.key@, value: self.value@ }
    }
}

impl<'x> Attribute<'x> {
    pub(crate) fn new(key: &'x [u8], value: &'x [u8]) -> (a: Self)
        ensures
            a@.key == key@,
            a@.value == value@,
    {
        Attribute { key, value }
    }

    /// The key of the attribute.
    pub fn key(&self) -> (r: &'x [u8])
        ensures
            r@ == self@.key,
    {
        self.key
    }

    /// The raw, potentially escaped value of the attribute.
    pub fn value(&self) -> (r: &'x [u8])
        ensures
            r@ == self@.value,
    {
        self.value
    }
}

/// A cursor over the attributes in a content span. It owns nothing but its
/// offset; each step yields the next pair or the error that stopped it.
#[derive(Clone)]
pub struct AttributeIter<'x> {
    content: &'x [u8],
    offset: usize,
}

impl<'x> View for AttributeIter<'x> {
    type V = crate::model::AttrModel;

    closed spec fn view(&self) -> crate::model::AttrModel {
        crate::model::AttrModel { c: self.content@, pos: self.offset as int }
    }
}

impl<'x> AttributeIter<'x> {
    /// A cursor over the given content, positioned at its start.
    ///
    /// Usually obtained through [`crate::event::Tag::attributes`], but any
    /// data can be handed in.
    pub fn new(content: &'x [u8]) -> (it: Self)
        ensures
            it@.c == content@,
            it@.pos == 0,
    {
        AttributeIter { content, offset: 0 }
    }

    /// Yields the next key/value pair, or `None` once only whitespace is
    /// left, or the error that stopped the cursor. One call is one step of
    /// [`crate::model::attr_step`] on the cursor's model.
    pub fn next(&mut self) -> (r: Option<Result<Attribute<'x>, Error>>)
        requires
            old(self)@.wf(),
        ensures
            final(self)@.wf(),
            attr_post(old(self)@, final(self)@, r),
    {
        let c = self.content;
        let n = c.len();

        // Skip the whitespace that may precede an attribute; only
        // whitespace left means the iteration is over, not an error.
        proof {
            lemma_find_nonws(c@, self.offset as int);
        }
        let p = match find_nonws_from(c, self.offset) {
            None => {
                return None;
            },
            Some(p) => p,
        };
        self.offset = p;

        // `p` anchors the error offsets of this attempt.
        proof {
            lemma_find_byte(c@, 0x3d, p as int);
        }
        let eq = match find_byte_from(c, 0x3d, p) {
            None => {
                return Some(Err(Error::InvalidAttribute(p)));
            },
            Some(e) => e,
        };
        self.offset = eq;

        // Trim whitespace around the key so `a="1"` and `a = "1"` agree.
        let key = trim_whitespace(slice_subrange(c, p, eq));
        if key.len() == 0 {
            return Some(Err(Error::InvalidAttribute(p)));
        }
        self.offset = eq + 1;

        // Find the opening quote, `"` or `'`, whichever comes first.
        proof {
            lemma_find_quote(c@, eq as int + 1);
        }
        let q = match find_quote_from(c, eq + 1) {
            None => {
                return Some(Err(Error::InvalidAttribute(p)));
            },
            Some(q) => q,
        };
        let quote = *slice_index_get(c, q);
        self.offset = q + 1;

        // The value is everything up to the matching quote, not unescaped.
        proof {
            lemma_find_byte(c@, quote, q as int + 1);
        }
        let close = match find_byte_from(c, quote, q + 1) {
            None => {
                return Some(Err(Error::UnexpectedEof(p)));
            },
            Some(cl) => cl,
        };
        self.offset = close + 1;
        let value = slice_subrange(c, q + 1, close);
        Some(Ok(Attribute::new(key, value)))
    }
}

} // verus!
