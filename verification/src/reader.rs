//! The scanner: owns the cursor and the state, and produces one event per
//! call, in document order. Each step is proved to follow `model::scan_step`.

use vstd::prelude::*;
use vstd::slice::{slice_index_get, slice_subrange};
use vstd::string::StringSliceAdditionalSpecFns;

use crate::event::{Error, Event, Tag, Text};
use crate::model::{step_post, with_trim, ReaderState, ScanModel};
use crate::scan::{
    find_byte_from, find_ws_from, is_valid_tag_name, lemma_find_byte, lemma_find_ws,
    trim_whitespace,
};

verus! {

/// Bytes that begin with the UTF-8 byte-order-mark, `EF BB BF`.
pub open spec fn has_bom(s: Seq<u8>) -> bool {
    s.len() >= 3 && s[0] == 0xef && s[1] == 0xbb && s[2] == 0xbf
}

/// `s` with every leading UTF-8 byte-order-mark removed.
pub open spec fn strip_bom_spec(s: Seq<u8>) -> Seq<u8>
    decreases s.len(),
{
    if has_bom(s) {
        strip_bom_spec(s.subrange(3, s.len() as int))
    } else {
        s
    }
}

/// A low-level reader over XML-like bytes, producing one event per call to
/// [`Reader::next`]. Its whole observable state is its [`ScanModel`] view:
/// the source bytes, the cursor, the discrete state and the trimming switch.
pub struct Reader<'x> {
    state: ReaderState,
    source: &'x [u8],
    offset: usize,
    trim: bool,
}

impl<'x> View for Reader<'x> {
    type V = ScanModel;

    closed spec fn view(&self) -> ScanModel {
        ScanModel {
            s: self.source@,
            pos: self.offset as int,
            state: self.state,
            trim: self.trim,
        }
    }
}

impl<'x> Reader<'x> {
    /// The reader's model is well-formed.
    pub open spec fn wf(self) -> bool {
        self@.wf()
    }

    /// Constructs a new reader over ASCII-compatible XML bytes, positioned
    /// at offset 0, searching, with whitespace trimming enabled.
    pub fn from_bytes(xml: &'x [u8]) -> (r: Reader<'x>)
        ensures
            r@ == (ScanModel { s: xml@, pos: 0, state: ReaderState::Searching, trim: true }),
            r.wf(),
    {
        Reader { state: ReaderState::Searching, source: xml, offset: 0, trim: true }
    }

    /// Constructs a new reader over ASCII-compatible XML bytes.
    pub fn new(xml: &'x [u8]) -> (r: Reader<'x>)
        ensures
            r@ == (ScanModel { s: xml@, pos: 0, state: ReaderState::Searching, trim: true }),
            r.wf(),
    {
        Self::from_bytes(xml)
    }

    /// Constructs a new reader over the bytes of a UTF-8 string. The source
    /// is valid UTF-8 and the cursor starts on a character boundary, so by
    /// [`crate::encoding::lemma_step_spans_valid`] every span this reader
    /// ever emits is itself valid UTF-8.
    pub fn from_str(xml: &'x str) -> (r: Reader<'x>)
        ensures
            r@ == (ScanModel {
                s: xml.spec_bytes(),
                pos: 0,
                state: ReaderState::Searching,
                trim: true,
            }),
            r.wf(),
            crate::encoding::valid_text_at(r@.s, r@.pos),
    {
        proof {
            vstd::utf8::encode_utf8_valid_utf8(xml@);
        }
        Self::from_bytes(xml.as_bytes())
    }

    /// Constructs a new reader over the bytes of a UTF-8 string, with every
    /// leading byte-order-mark stripped. The guarantee of [`Reader::from_str`]
    /// holds here too: the marks are complete scalars, so stripping them
    /// keeps the source valid UTF-8.
    pub fn from_str_bom(xml: &'x str) -> (r: Reader<'x>)
        ensures
            r@ == (ScanModel {
                s: strip_bom_spec(xml.spec_bytes()),
                pos: 0,
                state: ReaderState::Searching,
                trim: true,
            }),
            r.wf(),
            crate::encoding::valid_text_at(r@.s, r@.pos),
    {
        proof {
            vstd::utf8::encode_utf8_valid_utf8(xml@);
            crate::encoding::lemma_strip_bom_valid_utf8(xml.spec_bytes());
        }
        Self::from_bytes(strip_bom(xml.as_bytes()))
    }

    /// Enables or disables trimming whitespace in text events.
    ///
    /// The switch is dynamic: it may be turned on and off while parsing and
    /// takes effect on the next text candidate. Defaults to enabled.
    pub fn trim_whitespace(&mut self, trim: bool) -> (r: &mut Self)
        ensures
            (*r)@ == with_trim(old(self)@, trim),
            final(self)@ == final(r)@,
    {
        self.trim = trim;
        self
    }

    /// The current byte offset from the start of the input.
    pub fn offset(&self) -> (r: usize)
        ensures
            r as int == self@.pos,
    {
        self.offset
    }

    /// Produces the next event, or `None` once the input is exhausted, or an
    /// error without advancing past the failed tag. One call is one step of
    /// [`crate::model::scan_step`] on the reader's model.
    pub fn next(&mut self) -> (r: Option<Result<Event<'x>, Error>>)
        requires
            old(self).wf(),
        ensures
            final(self).wf(),
            step_post(old(self)@, final(self)@, r),
    {
        match self.state {
            ReaderState::Searching => self.next_search(),
            ReaderState::LocatedTag => self.next_tag(),
            ReaderState::End => None,
        }
    }

    fn next_search(&mut self) -> (r: Option<Result<Event<'x>, Error>>)
        requires
            old(self).wf(),
            old(self)@.state is Searching,
        ensures
            final(self).wf(),
            step_post(old(self)@, final(self)@, r),
    {
        let src = self.source;
        let start = self.offset;
        let n = src.len();
        proof {
            lemma_find_byte(src@, 0x3c, start as int);
        }
        let (found, raw_hi): (bool, usize) = match find_byte_from(src, 0x3c, start) {
            Some(i) => {
                self.offset = i + 1;
                self.state = ReaderState::LocatedTag;
                (true, i)
            },
            None => {
                self.state = ReaderState::End;
                (false, n)
            },
        };
        let mut text = slice_subrange(src, start, raw_hi);
        if self.trim {
            text = trim_whitespace(text);
        }
        if text.len() > 0 {
            Some(Ok(Event::Text(Text::new(text))))
        } else if found {
            self.next_tag()
        } else {
            None
        }
    }

    fn next_tag(&mut self) -> (r: Option<Result<Event<'x>, Error>>)
        requires
            old(self).wf(),
            old(self)@.state is LocatedTag,
        ensures
            final(self).wf(),
            step_post(old(self)@, final(self)@, r),
    {
        let ghost m = self@;
        let src = self.source;
        let off = self.offset;
        let _n = src.len();
        proof {
            lemma_find_byte(src@, 0x3e, off as int);
        }
        let gt = match find_byte_from(src, 0x3e, off) {
            None => {
                return Some(Err(Error::UnexpectedEof(off - 1)));
            },
            Some(g) => g,
        };
        let inner = slice_subrange(src, off, gt);
        let ghost iseq = inner@;
        let n_in = inner.len();

        // Split the inner span into head and tail at the first whitespace.
        proof {
            lemma_find_ws(iseq, 0);
        }
        let (h_hi0, t_lo): (usize, usize) = match find_ws_from(inner, 0) {
            Some(p) => (p, p + 1),
            None => (n_in, n_in),
        };
        let mut h_lo: usize = 0;
        let mut h_hi = h_hi0;
        let mut t_hi = n_in;

        let is_close = n_in > 0 && *slice_index_get(inner, 0) == 0x2f;
        let is_empty_t = n_in > 0 && *slice_index_get(inner, n_in - 1) == 0x2f;

        proof {
            assert(crate::model::closing(iseq) == is_close);
            assert(crate::model::self_closing(iseq) == is_empty_t);
            assert(crate::model::inner_head(iseq) == iseq.subrange(0, h_hi0 as int));
        }

        // Drop the `/` of `/>` in empty tags: it sits at the end of the head
        // when there is no tail, at the end of the tail otherwise.
        if is_empty_t {
            if t_lo == t_hi {
                proof {
                    // A whitespace split cannot end exactly at the closing
                    // slash, so here the head is the whole inner span.
                    assert(h_hi0 == n_in);
                    assert(iseq.subrange(0, n_in as int) =~= iseq);
                    assert(iseq.subrange(0, h_hi0 as int).drop_last() =~= iseq.subrange(
                        0,
                        h_hi0 - 1,
                    ));
                }
                h_hi = h_hi - 1;
            } else {
                proof {
                    assert(iseq.subrange(t_lo as int, n_in as int).drop_last() =~= iseq.subrange(
                        t_lo as int,
                        n_in - 1,
                    ));
                }
                t_hi = t_hi - 1;
            }
        }

        // Drop the `/` of `</` in close tags.
        if is_close {
            if h_lo == h_hi {
                // The strange case of `</>`.
                return Some(Err(Error::InvalidName(off - 1)));
            }
            proof {
                assert(iseq.subrange(0, h_hi as int).drop_first() =~= iseq.subrange(
                    1,
                    h_hi as int,
                ));
            }
            h_lo = h_lo + 1;
        }

        proof {
            assert(crate::model::tag_name(iseq) == iseq.subrange(h_lo as int, h_hi as int));
            assert(crate::model::tag_content(iseq) == iseq.subrange(t_lo as int, t_hi as int));
        }

        let name = slice_subrange(inner, h_lo, h_hi);
        if is_valid_tag_name(name) {
            self.offset = gt + 1;
            self.state = ReaderState::Searching;
            let content = slice_subrange(inner, t_lo, t_hi);
            let t = Tag::new(name, content);
            if is_close {
                Some(Ok(Event::CloseTag(t)))
            } else if is_empty_t {
                Some(Ok(Event::EmptyTag(t)))
            } else {
                Some(Ok(Event::OpenTag(t)))
            }
        } else {
            Some(Err(Error::InvalidName(off - 1)))
        }
    }
}

/// `xml` with every leading UTF-8 byte-order-mark removed.
fn strip_bom<'x>(xml: &'x [u8]) -> (r: &'x [u8])
    ensures
        r@ == strip_bom_spec(xml@),
{
    let mut rest = xml;
    while rest.len() >= 3 && *slice_index_get(rest, 0) == 0xef && *slice_index_get(rest, 1)
        == 0xbb && *slice_index_get(rest, 2) == 0xbf
        invariant
            strip_bom_spec(rest@) == strip_bom_spec(xml@),
        decreases rest@.len(),
    {
        rest = slice_subrange(rest, 3, rest.len());
    }
    rest
}

} // verus!
