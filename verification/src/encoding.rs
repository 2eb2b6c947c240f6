//! The text entry point's guarantee: a reader built from a string scans the
//! string's UTF-8 bytes, and every span its events carry — name, content,
//! text, key, value — is itself valid UTF-8. The tokenizer cuts the buffer
//! only next to its single-byte ASCII delimiters (`<`, `>`, `/`, `=`, the
//! quotes, whitespace at or below `0x20`), and in valid UTF-8 a cut beside
//! an ASCII byte never lands inside a multi-byte sequence. This module makes
//! that argument explicit, once per kind of cut, and carries the character
//! boundary invariant of the cursor through every step of the scanner and
//! of the attribute cursor.

use vstd::prelude::*;
use vstd::utf8::{
    encode_utf8, encode_utf8_valid_utf8, is_char_boundary,
    is_char_boundary_iff_not_is_continuation_byte, is_char_boundary_start_end_of_seq,
    is_continuation_byte, is_leading_byte_width_1, length_of_first_scalar, pop_first_scalar,
    valid_first_scalar, valid_utf8, valid_utf8_split,
};

use crate::model::{
    attr_step, closing, inner_head, inner_tail, scan_step, self_closing, tag_content, tag_name,
    tag_ok, tag_step, AttrModel, AttrStep, ReaderState, ScanModel, SpecEvent, SpecOutcome,
};
use crate::reader::{has_bom, strip_bom_spec};
use crate::scan::{
    find_byte_spec, find_nonws_spec, find_quote_spec, find_ws_spec, is_ws, lemma_find_byte,
    lemma_find_nonws, lemma_find_quote, lemma_find_ws, lemma_rfind_nonws, rfind_nonws_spec,
    trim_spec,
};

verus! {

/// The cursor invariant of a reader over text: the bytes are valid UTF-8
/// and the cursor sits on a character boundary.
pub open spec fn valid_text_at(s: Seq<u8>, pos: int) -> bool {
    valid_utf8(s) && is_char_boundary(s, pos)
}

/// Every span a scanner outcome carries is valid UTF-8.
pub open spec fn outcome_spans_valid(out: SpecOutcome) -> bool {
    match out {
        SpecOutcome::Emit(SpecEvent::Text { content }) => valid_utf8(content),
        SpecOutcome::Emit(SpecEvent::Tag { kind: _, name, content }) => valid_utf8(name)
            && valid_utf8(content),
        _ => true,
    }
}

/// Every span an attribute-cursor outcome carries is valid UTF-8.
pub open spec fn attr_spans_valid(out: AttrStep) -> bool {
    match out {
        AttrStep::Pair { key, value } => valid_utf8(key) && valid_utf8(value),
        _ => true,
    }
}

/// A position holding an ASCII byte, or the end of the buffer, is a
/// character boundary of valid UTF-8: continuation bytes are all at or
/// above `0x80`.
pub proof fn lemma_boundary_at_ascii(s: Seq<u8>, i: int)
    requires
        valid_utf8(s),
        0 <= i <= s.len(),
        i == s.len() || s[i] < 0x80,
    ensures
        is_char_boundary(s, i),
{
    if i == s.len() {
        is_char_boundary_start_end_of_seq(s);
    } else {
        is_char_boundary_iff_not_is_continuation_byte(s, i);
    }
}

/// The position just after an ASCII byte is a character boundary: in valid
/// UTF-8 an ASCII byte is a complete one-byte scalar, so what follows it is
/// the end or the leading byte of the next scalar.
pub proof fn lemma_boundary_after_ascii(s: Seq<u8>, q: int)
    requires
        valid_utf8(s),
        0 <= q < s.len(),
        s[q] < 0x80,
    ensures
        is_char_boundary(s, q + 1),
{
    lemma_boundary_at_ascii(s, q);
    valid_utf8_split(s, q);
    let t = s.subrange(q, s.len() as int);
    assert(t[0] == s[q]);
    assert(is_leading_byte_width_1(t[0]));
    assert(valid_first_scalar(t));
    assert(length_of_first_scalar(t) == 1);
    if q + 1 == s.len() {
        is_char_boundary_start_end_of_seq(s);
    } else {
        let rest = pop_first_scalar(t);
        assert(rest =~= t.subrange(1, t.len() as int));
        assert(valid_utf8(rest));
        assert(rest.len() > 0);
        assert(valid_first_scalar(rest));
        assert(rest[0] == s[q + 1]);
        assert(!is_continuation_byte(s[q + 1]));
        is_char_boundary_iff_not_is_continuation_byte(s, q + 1);
    }
}

/// A subrange of valid UTF-8 cut at two character boundaries is valid UTF-8.
pub proof fn lemma_valid_utf8_subrange(s: Seq<u8>, a: int, b: int)
    requires
        valid_utf8(s),
        0 <= a <= b <= s.len(),
        is_char_boundary(s, a),
        is_char_boundary(s, b),
    ensures
        valid_utf8(s.subrange(a, b)),
{
    valid_utf8_split(s, a);
    let t = s.subrange(a, s.len() as int);
    if b == s.len() {
        is_char_boundary_start_end_of_seq(t);
    } else if b == a {
        assert(is_char_boundary(t, 0));
    } else {
        is_char_boundary_iff_not_is_continuation_byte(s, b);
        assert(t[b - a] == s[b]);
        is_char_boundary_iff_not_is_continuation_byte(t, b - a);
    }
    valid_utf8_split(t, b - a);
    assert(s.subrange(a, b) =~= t.subrange(0, b - a));
}

/// Trimming valid UTF-8 leaves valid UTF-8: both trim cuts sit next to
/// whitespace bytes, which are ASCII.
pub proof fn lemma_trim_valid_utf8(s: Seq<u8>)
    requires
        valid_utf8(s),
    ensures
        valid_utf8(trim_spec(s)),
{
    lemma_find_nonws(s, 0);
    lemma_rfind_nonws(s);
    let a = find_nonws_spec(s, 0);
    if a < s.len() {
        let b = rfind_nonws_spec(s) + 1;
        assert(a < b) by {
            if b <= a {
                assert(is_ws(s[a]));
            }
        }
        if a == 0 {
            assert(is_char_boundary(s, 0));
        } else {
            assert(is_ws(s[a - 1]));
            lemma_boundary_after_ascii(s, a - 1);
        }
        lemma_boundary_at_ascii(s, b);
        lemma_valid_utf8_subrange(s, a, b);
    }
}

/// Stripping byte-order-marks keeps the bytes valid UTF-8: each mark is one
/// complete three-byte scalar.
pub proof fn lemma_strip_bom_valid_utf8(s: Seq<u8>)
    requires
        valid_utf8(s),
    ensures
        valid_utf8(strip_bom_spec(s)),
    decreases s.len(),
{
    if has_bom(s) {
        assert(valid_first_scalar(s));
        assert(length_of_first_scalar(s) == 3);
        assert(valid_utf8(pop_first_scalar(s)));
        assert(pop_first_scalar(s) == s.subrange(3, s.len() as int));
        lemma_strip_bom_valid_utf8(s.subrange(3, s.len() as int));
    }
}

/// The names and contents of a recognized tag are valid UTF-8 when the
/// inner span is: every slash or whitespace the splitting drops is ASCII.
proof fn lemma_tag_pieces_valid(inner: Seq<u8>)
    requires
        valid_utf8(inner),
        tag_ok(inner),
    ensures
        valid_utf8(tag_name(inner)),
        valid_utf8(tag_content(inner)),
{
    let n = inner.len() as int;
    lemma_find_ws(inner, 0);
    let sp = find_ws_spec(inner, 0);
    lemma_boundary_at_ascii(inner, n);
    assert(is_char_boundary(inner, 0));
    if sp == n {
        // No whitespace: the head is the whole span, the content is empty.
        assert(inner_head(inner) =~= inner);
        assert(inner_tail(inner).len() == 0);
        assert(valid_utf8(tag_content(inner)));
        if self_closing(inner) {
            assert(inner[n - 1] == 0x2f);
            lemma_boundary_at_ascii(inner, n - 1);
            if closing(inner) {
                assert(inner[0] == 0x2f);
                lemma_boundary_after_ascii(inner, 0);
                assert(tag_name(inner) =~= inner.subrange(1, n - 1));
                lemma_valid_utf8_subrange(inner, 1, n - 1);
            } else {
                assert(tag_name(inner) =~= inner.subrange(0, n - 1));
                lemma_valid_utf8_subrange(inner, 0, n - 1);
            }
        } else {
            if closing(inner) {
                assert(inner[0] == 0x2f);
                lemma_boundary_after_ascii(inner, 0);
                assert(tag_name(inner) =~= inner.subrange(1, n));
                lemma_valid_utf8_subrange(inner, 1, n);
            } else {
                assert(tag_name(inner) =~= inner);
            }
        }
    } else {
        // A whitespace byte splits head and tail; both cuts are ASCII.
        assert(is_ws(inner[sp]));
        lemma_boundary_at_ascii(inner, sp);
        lemma_boundary_after_ascii(inner, sp);
        assert(inner_head(inner) == inner.subrange(0, sp));
        assert(inner_tail(inner) =~= inner.subrange(sp + 1, n));
        if self_closing(inner) && inner_tail(inner).len() == 0 {
            // The split cannot end exactly at a closing slash.
            assert(inner[n - 1] == 0x2f);
            assert(sp == n - 1);
            assert(false);
        }
        if closing(inner) {
            assert(inner[0] == 0x2f);
            lemma_boundary_after_ascii(inner, 0);
            assert(tag_name(inner) =~= inner.subrange(1, sp));
            lemma_valid_utf8_subrange(inner, 1, sp);
        } else {
            assert(tag_name(inner) =~= inner.subrange(0, sp));
            lemma_valid_utf8_subrange(inner, 0, sp);
        }
        if self_closing(inner) {
            assert(inner_tail(inner).len() > 0);
            assert(inner[n - 1] == 0x2f);
            lemma_boundary_at_ascii(inner, n - 1);
            assert(tag_content(inner) =~= inner.subrange(sp + 1, n - 1));
            lemma_valid_utf8_subrange(inner, sp + 1, n - 1);
        } else {
            assert(tag_content(inner) =~= inner.subrange(sp + 1, n));
            lemma_valid_utf8_subrange(inner, sp + 1, n);
        }
    }
}

/// As `lemma_step_spans_valid`, for a step taken from `LocatedTag`.
proof fn lemma_tag_step_spans_valid(m: ScanModel)
    requires
        m.wf(),
        m.state is LocatedTag,
        valid_text_at(m.s, m.pos),
    ensures
        outcome_spans_valid(tag_step(m).1),
        valid_text_at(tag_step(m).0.s, tag_step(m).0.pos),
{
    lemma_find_byte(m.s, 0x3e, m.pos);
    let gt = find_byte_spec(m.s, 0x3e, m.pos);
    if gt < m.s.len() {
        assert(m.s[gt] == 0x3e);
        lemma_boundary_at_ascii(m.s, gt);
        lemma_valid_utf8_subrange(m.s, m.pos, gt);
        let inner = m.s.subrange(m.pos, gt);
        if tag_ok(inner) {
            lemma_tag_pieces_valid(inner);
            lemma_boundary_after_ascii(m.s, gt);
        }
    }
}

/// One scanner step over valid text emits only valid-UTF-8 spans and leaves
/// the cursor on a character boundary again. With the entry lemmas below,
/// the guarantee of the text entry points follows for every event of a scan.
pub proof fn lemma_step_spans_valid(m: ScanModel)
    requires
        m.wf(),
        valid_text_at(m.s, m.pos),
    ensures
        outcome_spans_valid(scan_step(m).1),
        valid_text_at(scan_step(m).0.s, scan_step(m).0.pos),
{
    match m.state {
        ReaderState::End => {},
        ReaderState::LocatedTag => {
            lemma_tag_step_spans_valid(m);
        },
        ReaderState::Searching => {
            lemma_find_byte(m.s, 0x3c, m.pos);
            let lt = find_byte_spec(m.s, 0x3c, m.pos);
            lemma_boundary_at_ascii(m.s, lt);
            lemma_valid_utf8_subrange(m.s, m.pos, lt);
            let raw = m.s.subrange(m.pos, lt);
            lemma_trim_valid_utf8(raw);
            let text = if m.trim {
                trim_spec(raw)
            } else {
                raw
            };
            if lt < m.s.len() {
                assert(m.s[lt] == 0x3c);
                lemma_boundary_after_ascii(m.s, lt);
                if text.len() == 0 {
                    let m1 = ScanModel { pos: lt + 1, state: ReaderState::LocatedTag, ..m };
                    lemma_tag_step_spans_valid(m1);
                }
            }
        },
    }
}

/// One attribute-cursor step over a valid-UTF-8 content span emits only
/// valid-UTF-8 keys and values and leaves its offset on a character
/// boundary: the `=`, the quotes and the skipped whitespace are all ASCII.
pub proof fn lemma_attr_step_spans_valid(m: AttrModel)
    requires
        m.wf(),
        valid_text_at(m.c, m.pos),
    ensures
        attr_spans_valid(attr_step(m).1),
        valid_text_at(attr_step(m).0.c, attr_step(m).0.pos),
{
    lemma_find_nonws(m.c, m.pos);
    let p = find_nonws_spec(m.c, m.pos);
    if p < m.c.len() {
        if p == m.pos {
            assert(is_char_boundary(m.c, p));
        } else {
            assert(is_ws(m.c[p - 1]));
            lemma_boundary_after_ascii(m.c, p - 1);
        }
        lemma_find_byte(m.c, 0x3d, p);
        let eq = find_byte_spec(m.c, 0x3d, p);
        if eq < m.c.len() {
            assert(m.c[eq] == 0x3d);
            lemma_boundary_at_ascii(m.c, eq);
            lemma_valid_utf8_subrange(m.c, p, eq);
            lemma_trim_valid_utf8(m.c.subrange(p, eq));
            let key = trim_spec(m.c.subrange(p, eq));
            if key.len() > 0 {
                lemma_boundary_after_ascii(m.c, eq);
                lemma_find_quote(m.c, eq + 1);
                let q = find_quote_spec(m.c, eq + 1);
                if q < m.c.len() {
                    assert(m.c[q] == 0x22 || m.c[q] == 0x27);
                    lemma_boundary_after_ascii(m.c, q);
                    lemma_find_byte(m.c, m.c[q], q + 1);
                    let close = find_byte_spec(m.c, m.c[q], q + 1);
                    if close < m.c.len() {
                        assert(m.c[close] == m.c[q]);
                        lemma_boundary_at_ascii(m.c, close);
                        lemma_valid_utf8_subrange(m.c, q + 1, close);
                        lemma_boundary_after_ascii(m.c, close);
                    }
                }
            }
        }
    }
}

/// The text entry points establish the cursor invariant: a string's UTF-8
/// bytes — with or without leading byte-order-marks stripped — are valid
/// UTF-8, and offset 0 is a character boundary. A reader built by
/// `Reader::from_str` or `Reader::from_str_bom` starts here, and
/// `lemma_step_spans_valid` carries the invariant through every step.
pub proof fn lemma_text_entry_valid(chars: Seq<char>)
    ensures
        valid_text_at(encode_utf8(chars), 0),
        valid_text_at(strip_bom_spec(encode_utf8(chars)), 0),
{
    encode_utf8_valid_utf8(chars);
    lemma_strip_bom_valid_utf8(encode_utf8(chars));
}

/// A fresh attribute cursor over a valid-UTF-8 content span — such as the
/// content of any tag a text-built reader emitted — starts on a character
/// boundary, so `lemma_attr_step_spans_valid` applies to its every step.
pub proof fn lemma_cursor_start_valid(c: Seq<u8>)
    requires
        valid_utf8(c),
    ensures
        valid_text_at(c, 0),
{
}

} // verus!
