//! Properties of the scanner model that hold for every input, proved once
//! and for all: what a buffer without tags yields, which bytes each event
//! accounts for — step by step and over a whole error-free scan — how the
//! cursor moves, and that the trimming switch is idempotent.

use vstd::prelude::*;

use crate::event::TagKind;
use crate::model::{
    closing, inner_head, inner_tail, scan_step, self_closing, tag_content, tag_kind, tag_name,
    tag_ok, tag_step, with_trim, ReaderState, ScanModel, SpecEvent, SpecOutcome,
};
use crate::scan::{
    find_byte_spec, find_nonws_spec, find_ws_spec, is_ws, lemma_find_byte, lemma_find_nonws,
    lemma_find_ws, lemma_rfind_nonws, name_start_ok, rfind_nonws_spec, trim_spec,
};

verus! {

/// Every byte of `s` is whitespace.
pub open spec fn ws_seq(s: Seq<u8>) -> bool {
    forall|k: int| 0 <= k < s.len() ==> is_ws(s[k])
}

/// A name as it appears between delimiters: non-empty, beginning with an
/// allowed byte, and free of whitespace.
pub open spec fn plain_name(nm: Seq<u8>) -> bool {
    nm.len() > 0 && name_start_ok(nm[0]) && (forall|k: int| 0 <= k < nm.len() ==> !is_ws(nm[k]))
}

/// Setting the trimming switch twice to the same value is the same as
/// setting it once.
pub proof fn lemma_trim_toggle_idempotent(m: ScanModel, trim: bool)
    ensures
        with_trim(with_trim(m, trim), trim) == with_trim(m, trim),
{
}

/// Once the reader has reached the end, every further step yields nothing
/// and changes nothing.
pub proof fn lemma_end_done(m: ScanModel)
    requires
        m.state is End,
    ensures
        scan_step(m) == (m, SpecOutcome::Done),
{
}

/// Trimming drops only whitespace: the trimmed span is an interior subrange,
/// and everything outside it is whitespace.
pub proof fn lemma_trim_parts(s: Seq<u8>)
    ensures
        ({
            let a = find_nonws_spec(s, 0);
            let b = rfind_nonws_spec(s) + 1;
            &&& (a == s.len() ==> trim_spec(s).len() == 0 && ws_seq(s))
            &&& (a < s.len() ==> {
                &&& 0 <= a <= b <= s.len()
                &&& trim_spec(s) == s.subrange(a, b)
                &&& s == s.subrange(0, a) + trim_spec(s) + s.subrange(b, s.len() as int)
                &&& ws_seq(s.subrange(0, a))
                &&& ws_seq(s.subrange(b, s.len() as int))
            })
        }),
{
    lemma_find_nonws(s, 0);
    lemma_rfind_nonws(s);
    let a = find_nonws_spec(s, 0);
    let b = rfind_nonws_spec(s) + 1;
    if a < s.len() {
        assert(b > a) by {
            if b <= a {
                assert(is_ws(s[a]));
            }
        }
        assert(s =~= s.subrange(0, a) + s.subrange(a, b) + s.subrange(b, s.len() as int));
    }
}

/// A span of nothing but whitespace trims to nothing.
pub proof fn lemma_trim_all_ws(s: Seq<u8>)
    requires
        ws_seq(s),
    ensures
        trim_spec(s).len() == 0,
{
    lemma_find_nonws(s, 0);
    if find_nonws_spec(s, 0) < s.len() {
        assert(is_ws(s[find_nonws_spec(s, 0)]));
    }
}

/// One step never moves the cursor backwards or past the end, never touches
/// the source or the trimming switch, and keeps the model well-formed.
pub proof fn lemma_step_wf(m: ScanModel)
    requires
        m.wf(),
    ensures
        scan_step(m).0.wf(),
        m.pos <= scan_step(m).0.pos,
        scan_step(m).0.s == m.s,
        scan_step(m).0.trim == m.trim,
{
    match m.state {
        ReaderState::Searching => {
            lemma_find_byte(m.s, 0x3c, m.pos);
            let lt = find_byte_spec(m.s, 0x3c, m.pos);
            if lt < m.s.len() {
                let m1 = ScanModel { pos: lt + 1, state: ReaderState::LocatedTag, ..m };
                lemma_tag_step_wf(m1);
            }
        },
        ReaderState::LocatedTag => {
            lemma_tag_step_wf(m);
        },
        ReaderState::End => {},
    }
}

/// As `lemma_step_wf`, for a step taken from `LocatedTag`.
proof fn lemma_tag_step_wf(m: ScanModel)
    requires
        m.wf(),
        m.state is LocatedTag,
    ensures
        tag_step(m).0.wf(),
        m.pos <= tag_step(m).0.pos,
        tag_step(m).0.s == m.s,
        tag_step(m).0.trim == m.trim,
{
    lemma_find_byte(m.s, 0x3e, m.pos);
}

/// A failed tag does not advance the scanner: the model is left exactly as
/// it was, so calling again without repositioning reproduces the error.
pub proof fn lemma_error_no_advance(m: ScanModel)
    requires
        m.wf(),
        m.state is LocatedTag,
        scan_step(m).1 is Fail,
    ensures
        scan_step(m).0 == m,
{
}

/// An input with no `<` at or after the cursor yields the whole (possibly
/// trimmed) remainder as a single text event, or nothing at all if that
/// remainder is empty; either way the reader then ends without moving.
pub proof fn lemma_no_tag_text(m: ScanModel)
    requires
        m.wf(),
        m.state is Searching,
        forall|k: int| m.pos <= k < m.s.len() ==> m.s[k] != 0x3c,
    ensures
        ({
            let raw = m.s.subrange(m.pos, m.s.len() as int);
            let text = if m.trim {
                trim_spec(raw)
            } else {
                raw
            };
            &&& scan_step(m).0.state is End
            &&& scan_step(m).0.pos == m.pos
            &&& (text.len() > 0 ==> scan_step(m).1 == SpecOutcome::Emit(
                SpecEvent::Text { content: text },
            ))
            &&& (text.len() == 0 ==> scan_step(m).1 is Done)
        }),
{
    lemma_find_byte(m.s, 0x3c, m.pos);
    if find_byte_spec(m.s, 0x3c, m.pos) < m.s.len() {
        assert(m.s[find_byte_spec(m.s, 0x3c, m.pos)] == 0x3c);
    }
}

/// A buffer holding nothing but whitespace at or after the cursor yields no
/// events at all while trimming is on, whatever its length.
pub proof fn lemma_ws_only_no_events(m: ScanModel)
    requires
        m.wf(),
        m.state is Searching,
        m.trim,
        forall|k: int| m.pos <= k < m.s.len() ==> is_ws(m.s[k]),
    ensures
        scan_step(m).1 is Done,
        scan_step(m).0.state is End,
        scan_step(m).0.pos == m.pos,
{
    assert forall|k: int| m.pos <= k < m.s.len() implies m.s[k] != 0x3c by {
        assert(is_ws(m.s[k]));
    }
    lemma_no_tag_text(m);
    let raw = m.s.subrange(m.pos, m.s.len() as int);
    assert(ws_seq(raw));
    lemma_trim_all_ws(raw);
}

/// The well-formed empty-tag shapes: `<nm/>` and `<nm attrs/>` (the latter
/// with any attribute bytes, possibly none) are recognized as empty tags
/// whose name is exactly `nm` and whose content is exactly the attribute
/// bytes — no slash is left in either.
pub proof fn lemma_empty_tag_forms(nm: Seq<u8>, attrs: Seq<u8>)
    requires
        plain_name(nm),
    ensures
        ({
            let inner = nm + seq![0x2fu8];
            &&& tag_ok(inner)
            &&& tag_kind(inner) == TagKind::Empty
            &&& tag_name(inner) == nm
            &&& tag_content(inner).len() == 0
        }),
        ({
            let inner = nm + seq![0x20u8] + attrs + seq![0x2fu8];
            &&& tag_ok(inner)
            &&& tag_kind(inner) == TagKind::Empty
            &&& tag_name(inner) == nm
            &&& tag_content(inner) == attrs
        }),
{
    let n = nm.len() as int;
    // `<nm/>`: the slash ends up at the end of the head.
    let inner1 = nm + seq![0x2fu8];
    lemma_find_ws(inner1, 0);
    assert(find_ws_spec(inner1, 0) == inner1.len()) by {
        let j = find_ws_spec(inner1, 0);
        if j < inner1.len() {
            assert(is_ws(inner1[j]));
            if j < n {
                assert(inner1[j] == nm[j]);
            }
        }
    }
    assert(inner_head(inner1) =~= inner1);
    assert(self_closing(inner1));
    assert(!closing(inner1)) by {
        assert(inner1[0] == nm[0]);
        assert(name_start_ok(nm[0]));
    }
    assert(inner1.drop_last() =~= nm);
    assert(tag_name(inner1) == nm);

    // `<nm attrs/>`: the slash ends up at the end of the tail.
    let inner2 = nm + seq![0x20u8] + attrs + seq![0x2fu8];
    lemma_find_ws(inner2, 0);
    assert(find_ws_spec(inner2, 0) == n) by {
        let j = find_ws_spec(inner2, 0);
        assert(inner2[n] == 0x20);
        if j < n {
            assert(inner2[j] == nm[j]);
        }
    }
    assert(inner_head(inner2) =~= nm);
    assert(inner_tail(inner2) =~= attrs + seq![0x2fu8]);
    assert(self_closing(inner2)) by {
        assert(inner2.last() == 0x2f);
    }
    assert(!closing(inner2)) by {
        assert(inner2[0] == nm[0]);
    }
    assert(inner_tail(inner2).len() > 0);
    assert(tag_name(inner2) == nm);
    assert((attrs + seq![0x2fu8]).drop_last() =~= attrs);
    assert(tag_content(inner2) == attrs);
}

/// The well-formed close-tag shape: `</nm>` is recognized as a close tag
/// whose name is exactly `nm` and whose content is empty.
pub proof fn lemma_close_tag(nm: Seq<u8>)
    requires
        plain_name(nm),
        nm.last() != 0x2f,
    ensures
        ({
            let inner = seq![0x2fu8] + nm;
            &&& tag_ok(inner)
            &&& tag_kind(inner) == TagKind::Close
            &&& tag_name(inner) == nm
            &&& tag_content(inner).len() == 0
        }),
{
    let inner = seq![0x2fu8] + nm;
    lemma_find_ws(inner, 0);
    assert(find_ws_spec(inner, 0) == inner.len()) by {
        let j = find_ws_spec(inner, 0);
        if 0 < j < inner.len() {
            assert(inner[j] == nm[j - 1]);
        }
        if j == 0 {
            assert(inner[0] == 0x2f);
        }
    }
    assert(inner_head(inner) =~= inner);
    assert(!self_closing(inner)) by {
        assert(inner.last() == nm.last());
    }
    assert(closing(inner));
    assert(inner.drop_first() =~= nm);
    assert(tag_name(inner) == nm);
}

/// The documented lenient quirk: `</nm/>` is still recognized as a close
/// tag named `nm`, because the empty-tag slash trim and the close-tag slash
/// trim are independent and both apply.
pub proof fn lemma_close_tag_quirk(nm: Seq<u8>)
    requires
        plain_name(nm),
    ensures
        ({
            let inner = seq![0x2fu8] + nm + seq![0x2fu8];
            &&& tag_ok(inner)
            &&& tag_kind(inner) == TagKind::Close
            &&& tag_name(inner) == nm
            &&& tag_content(inner).len() == 0
        }),
{
    let inner = seq![0x2fu8] + nm + seq![0x2fu8];
    let n = nm.len() as int;
    lemma_find_ws(inner, 0);
    assert(find_ws_spec(inner, 0) == inner.len()) by {
        let j = find_ws_spec(inner, 0);
        if 0 < j < inner.len() - 1 {
            assert(inner[j] == nm[j - 1]);
        }
        if j == 0 || j == inner.len() - 1 {
            assert(inner[j] == 0x2f);
        }
    }
    assert(inner_head(inner) =~= inner);
    assert(self_closing(inner)) by {
        assert(inner.last() == 0x2f);
    }
    assert(closing(inner)) by {
        assert(inner[0] == 0x2f);
    }
    assert(inner.drop_last() =~= seq![0x2fu8] + nm);
    assert((seq![0x2fu8] + nm).drop_first() =~= nm);
    assert(tag_name(inner) == nm);
}

/// A recognized tag can be put back together: `inner` is the name and the
/// content with nothing between and around them but the documented
/// delimiters — the `/` of a close tag in front, at most one whitespace
/// byte as separator, and the `/` of a self-closing form at the end.
pub open spec fn tag_assembly(
    inner: Seq<u8>,
    kind: TagKind,
    name: Seq<u8>,
    content: Seq<u8>,
    sep: Seq<u8>,
    em: Seq<u8>,
) -> bool {
    &&& inner == (if kind is Close {
        seq![0x2fu8]
    } else {
        Seq::<u8>::empty()
    }) + name + sep + content + em
    &&& sep.len() <= 1
    &&& ws_seq(sep)
    &&& (content.len() > 0 ==> sep.len() == 1)
    &&& (em == Seq::<u8>::empty() || em == seq![0x2fu8])
    &&& (kind is Empty ==> em == seq![0x2fu8])
    &&& (kind is Open ==> em == Seq::<u8>::empty())
}

/// Round trip of one recognized tag: the step consumed exactly
/// `<` + `inner` + `>`, and `inner` reassembles from the event's name and
/// content with only the documented delimiters added.
pub proof fn lemma_tag_round_trip(m: ScanModel)
    requires
        m.wf(),
        m.state is LocatedTag,
    ensures
        ({
            let gt = find_byte_spec(m.s, 0x3e, m.pos);
            let inner = m.s.subrange(m.pos, gt);
            scan_step(m).1 is Emit ==> {
                &&& scan_step(m).0.pos == gt + 1
                &&& m.s.subrange(m.pos - 1, gt + 1) == seq![0x3cu8] + inner + seq![0x3eu8]
                &&& scan_step(m).1 == SpecOutcome::Emit(
                    SpecEvent::Tag {
                        kind: tag_kind(inner),
                        name: tag_name(inner),
                        content: tag_content(inner),
                    },
                )
                &&& exists|sep: Seq<u8>, em: Seq<u8>|
                    tag_assembly(inner, tag_kind(inner), tag_name(inner), tag_content(inner), sep, em)
            }
        }),
{
    lemma_find_byte(m.s, 0x3e, m.pos);
    let gt = find_byte_spec(m.s, 0x3e, m.pos);
    if gt < m.s.len() {
        let inner = m.s.subrange(m.pos, gt);
        assert(m.s.subrange(m.pos - 1, gt + 1) =~= seq![0x3cu8] + inner + seq![0x3eu8]);
        if tag_ok(inner) {
            lemma_tag_assembly(inner);
        }
    }
}

/// The reassembly fact for any recognized inner span.
proof fn lemma_tag_assembly(inner: Seq<u8>)
    requires
        tag_ok(inner),
    ensures
        exists|sep: Seq<u8>, em: Seq<u8>|
            tag_assembly(inner, tag_kind(inner), tag_name(inner), tag_content(inner), sep, em),
{
    let n = inner.len() as int;
    lemma_find_ws(inner, 0);
    let sp = find_ws_spec(inner, 0);
    let cm: Seq<u8> = if closing(inner) {
        seq![0x2fu8]
    } else {
        Seq::<u8>::empty()
    };
    let sep: Seq<u8> = if sp == n {
        Seq::<u8>::empty()
    } else {
        seq![inner[sp]]
    };
    let em: Seq<u8> = if self_closing(inner) {
        seq![0x2fu8]
    } else {
        Seq::<u8>::empty()
    };
    let name = tag_name(inner);
    let content = tag_content(inner);

    if sp == n {
        // No whitespace: the whole inner span is the head; the tail, the
        // separator and the content are all empty.
        assert(inner_head(inner) =~= inner);
        assert(inner_tail(inner).len() == 0);
        assert(content.len() == 0);
        if self_closing(inner) {
            if closing(inner) {
                assert(name.len() > 0);
                assert(inner.drop_last() =~= inner.subrange(0, n - 1));
                assert(name =~= inner.subrange(1, n - 1));
                assert(inner =~= cm + name + sep + content + em);
            } else {
                assert(name =~= inner.subrange(0, n - 1));
                assert(inner =~= cm + name + sep + content + em);
            }
        } else {
            if closing(inner) {
                assert(name =~= inner.subrange(1, n));
                assert(inner =~= cm + name + sep + content + em);
            } else {
                assert(inner =~= cm + name + sep + content + em);
            }
        }
    } else {
        // A whitespace byte splits head and tail; it becomes the separator.
        assert(is_ws(inner[sp]));
        assert(inner_head(inner) == inner.subrange(0, sp));
        assert(inner_tail(inner) =~= inner.subrange(sp + 1, n));
        if self_closing(inner) && inner_tail(inner).len() == 0 {
            // The split cannot end exactly at a closing slash.
            assert(inner[n - 1] == 0x2f);
            assert(sp == n - 1);
            assert(false);
        }
        if closing(inner) {
            assert(inner[0] == 0x2f);
            assert(sp > 0);
            assert(name =~= inner.subrange(1, sp));
        } else {
            assert(name =~= inner.subrange(0, sp));
        }
        if self_closing(inner) {
            assert(inner_tail(inner).len() > 0);
            assert(content =~= inner.subrange(sp + 1, n - 1));
            assert(inner =~= cm + name + sep + content + em);
        } else {
            assert(content =~= inner.subrange(sp + 1, n));
            assert(inner =~= cm + name + sep + content + em);
        }
    }
    assert(tag_assembly(inner, tag_kind(inner), name, content, sep, em));
}

/// An emitted text run can be put back into its raw candidate: only
/// whitespace was dropped, at the two ends.
pub open spec fn text_assembly(raw: Seq<u8>, content: Seq<u8>, pre: Seq<u8>, post: Seq<u8>) -> bool {
    &&& raw == pre + content + post
    &&& ws_seq(pre)
    &&& ws_seq(post)
}

/// Consecutive steps cover adjacent spans, so what a run of steps consumed
/// together is the concatenation of what each consumed: with the per-step
/// coverage facts below, consecutive events plus their delimiters put the
/// scanned part of the buffer back together exactly.
pub proof fn lemma_steps_concat(s: Seq<u8>, lo: int, mid: int, hi: int)
    requires
        0 <= lo <= mid <= hi <= s.len(),
    ensures
        s.subrange(lo, hi) == s.subrange(lo, mid) + s.subrange(mid, hi),
{
    assert(s.subrange(lo, hi) =~= s.subrange(lo, mid) + s.subrange(mid, hi));
}

/// Rank of a scanner state, used in the termination measure of a scan.
pub open spec fn scan_rank(m: ScanModel) -> int {
    match m.state {
        ReaderState::End => 0,
        ReaderState::Searching => 1,
        ReaderState::LocatedTag => 2,
    }
}

/// Termination measure of a scan: every step that emits an event strictly
/// decreases it, so a scan emits only finitely many events.
pub open spec fn scan_measure(m: ScanModel) -> int {
    3 * (m.s.len() - m.pos) + scan_rank(m)
}

/// A step that emits an event strictly decreases the scan measure.
pub proof fn lemma_emit_decreases(m: ScanModel)
    requires
        m.wf(),
        scan_step(m).1 is Emit,
    ensures
        0 <= scan_measure(scan_step(m).0) < scan_measure(m),
{
    lemma_step_wf(m);
    match m.state {
        ReaderState::End => {},
        ReaderState::LocatedTag => {
            lemma_find_byte(m.s, 0x3e, m.pos);
        },
        ReaderState::Searching => {
            lemma_find_byte(m.s, 0x3c, m.pos);
            let lt = find_byte_spec(m.s, 0x3c, m.pos);
            if lt < m.s.len() {
                lemma_find_byte(m.s, 0x3e, lt + 1);
            }
        },
    }
}

/// No step of the scan starting at `m` fails: events are emitted until the
/// scanner reports that nothing is left.
pub open spec fn run_ok(m: ScanModel) -> bool
    recommends
        m.wf(),
    decreases scan_measure(m) when m.wf() via run_ok_decreases
{
    if m.state is End {
        true
    } else {
        match scan_step(m).1 {
            SpecOutcome::Fail(_) => false,
            SpecOutcome::Done => true,
            SpecOutcome::Emit(_) => run_ok(scan_step(m).0),
        }
    }
}

#[via_fn]
proof fn run_ok_decreases(m: ScanModel) {
    if m.wf() && !(m.state is End) && scan_step(m).1 is Emit {
        lemma_emit_decreases(m);
    }
}

/// The bytes one step accounts for: from the cursor to the new cursor, or
/// to the end of the input when the step ends the scan (the scanner leaves
/// its cursor behind when it walks off the end of the buffer).
pub open spec fn step_span(m: ScanModel) -> Seq<u8> {
    if scan_step(m).0.state is End {
        m.s.subrange(m.pos, m.s.len() as int)
    } else {
        m.s.subrange(m.pos, scan_step(m).0.pos)
    }
}

/// Concatenation, in document order, of the bytes each step of the scan
/// accounts for, up to the end of the input or the first error.
pub open spec fn run_covered(m: ScanModel) -> Seq<u8>
    recommends
        m.wf(),
    decreases scan_measure(m) when m.wf() via run_covered_decreases
{
    if m.state is End {
        Seq::empty()
    } else {
        match scan_step(m).1 {
            SpecOutcome::Fail(_) => Seq::empty(),
            SpecOutcome::Done => step_span(m),
            SpecOutcome::Emit(_) => step_span(m) + run_covered(scan_step(m).0),
        }
    }
}

#[via_fn]
proof fn run_covered_decreases(m: ScanModel) {
    if m.wf() && !(m.state is End) && scan_step(m).1 is Emit {
        lemma_emit_decreases(m);
    }
}

/// The bytes a text step accounts for are the emitted content, the
/// whitespace trimmed off its two ends, and the `<` delimiter when a tag
/// follows.
pub open spec fn text_span_assembly(
    cover: Seq<u8>,
    content: Seq<u8>,
    pre: Seq<u8>,
    post: Seq<u8>,
    mark: Seq<u8>,
) -> bool {
    &&& cover == pre + content + post + mark
    &&& ws_seq(pre)
    &&& ws_seq(post)
    &&& (mark == Seq::<u8>::empty() || mark == seq![0x3cu8])
}

/// The bytes a tag step accounts for are the emitted name and content, the
/// documented delimiters (`<`, the close and empty slashes, at most one
/// whitespace separator, `>`), and a skipped whitespace-only text run.
pub open spec fn tag_span_assembly(
    cover: Seq<u8>,
    kind: TagKind,
    name: Seq<u8>,
    content: Seq<u8>,
    skip: Seq<u8>,
    mark: Seq<u8>,
    sep: Seq<u8>,
    em: Seq<u8>,
) -> bool {
    &&& cover == skip + mark + (if kind is Close {
        seq![0x2fu8]
    } else {
        Seq::<u8>::empty()
    }) + name + sep + content + em + seq![0x3eu8]
    &&& ws_seq(skip)
    &&& (mark == Seq::<u8>::empty() || mark == seq![0x3cu8])
    &&& (skip.len() > 0 ==> mark == seq![0x3cu8])
    &&& sep.len() <= 1
    &&& ws_seq(sep)
    &&& (content.len() > 0 ==> sep.len() == 1)
    &&& (em == Seq::<u8>::empty() || em == seq![0x2fu8])
    &&& (kind is Empty ==> em == seq![0x2fu8])
    &&& (kind is Open ==> em == Seq::<u8>::empty())
}

/// Some whitespace decomposition accounts for the bytes of a text step.
pub open spec fn text_event_span_ok(cover: Seq<u8>, content: Seq<u8>) -> bool {
    exists|pre: Seq<u8>, post: Seq<u8>, mark: Seq<u8>|
        text_span_assembly(cover, content, pre, post, mark)
}

/// Some delimiter decomposition accounts for the bytes of a tag step.
pub open spec fn tag_event_span_ok(
    cover: Seq<u8>,
    kind: TagKind,
    name: Seq<u8>,
    content: Seq<u8>,
) -> bool {
    exists|skip: Seq<u8>, mark: Seq<u8>, sep: Seq<u8>, em: Seq<u8>|
        tag_span_assembly(cover, kind, name, content, skip, mark, sep, em)
}

/// The bytes a step accounts for reassemble from its emitted event: only
/// the documented delimiters and dropped whitespace stand beside the
/// event's own spans.
pub open spec fn event_span_assembly(cover: Seq<u8>, se: SpecEvent) -> bool {
    match se {
        SpecEvent::Text { content } => text_event_span_ok(cover, content),
        SpecEvent::Tag { kind, name, content } => tag_event_span_ok(cover, kind, name, content),
    }
}

/// The bytes a step accounts for reassemble from its outcome: a step that
/// ends the scan dropped only whitespace, and an emitted event accounts for
/// them as `event_span_assembly` says.
pub open spec fn span_assembly(cover: Seq<u8>, out: SpecOutcome) -> bool {
    match out {
        SpecOutcome::Done => ws_seq(cover),
        SpecOutcome::Fail(_) => true,
        SpecOutcome::Emit(se) => event_span_assembly(cover, se),
    }
}

/// Every step of the scan accounts for its bytes, step after step, until
/// the end of the input or the first error.
pub open spec fn run_assembles(m: ScanModel) -> bool
    recommends
        m.wf(),
    decreases scan_measure(m) when m.wf() via run_assembles_decreases
{
    if m.state is End {
        true
    } else {
        &&& span_assembly(step_span(m), scan_step(m).1)
        &&& (scan_step(m).1 is Emit ==> run_assembles(scan_step(m).0))
    }
}

#[via_fn]
proof fn run_assembles_decreases(m: ScanModel) {
    if m.wf() && !(m.state is End) && scan_step(m).1 is Emit {
        lemma_emit_decreases(m);
    }
}

/// A recognized tag reached with `skip` whitespace bytes and `mark` (the
/// `<` if one was walked past) accounts for exactly those bytes, the inner
/// span and the `>`.
proof fn lemma_tag_span_assembly_with(m: ScanModel, skip: Seq<u8>, mark: Seq<u8>, cover: Seq<u8>)
    requires
        m.wf(),
        m.state is LocatedTag,
        tag_step(m).1 is Emit,
        ws_seq(skip),
        mark == Seq::<u8>::empty() || mark == seq![0x3cu8],
        skip.len() > 0 ==> mark == seq![0x3cu8],
        cover == skip + mark + m.s.subrange(m.pos, find_byte_spec(m.s, 0x3e, m.pos)) + seq![
            0x3eu8,
        ],
    ensures
        span_assembly(cover, tag_step(m).1),
{
    lemma_find_byte(m.s, 0x3e, m.pos);
    let gt = find_byte_spec(m.s, 0x3e, m.pos);
    let inner = m.s.subrange(m.pos, gt);
    lemma_tag_assembly(inner);
    let (sep, em) = choose|sep: Seq<u8>, em: Seq<u8>|
        tag_assembly(inner, tag_kind(inner), tag_name(inner), tag_content(inner), sep, em);
    let cm: Seq<u8> = if tag_kind(inner) is Close {
        seq![0x2fu8]
    } else {
        Seq::<u8>::empty()
    };
    assert(inner == cm + tag_name(inner) + sep + tag_content(inner) + em);
    assert(cover =~= skip + mark + cm + tag_name(inner) + sep + tag_content(inner) + em + seq![
        0x3eu8,
    ]);
    assert(tag_span_assembly(
        cover,
        tag_kind(inner),
        tag_name(inner),
        tag_content(inner),
        skip,
        mark,
        sep,
        em,
    ));
    assert(tag_event_span_ok(cover, tag_kind(inner), tag_name(inner), tag_content(inner)));
    let se = SpecEvent::Tag {
        kind: tag_kind(inner),
        name: tag_name(inner),
        content: tag_content(inner),
    };
    assert(event_span_assembly(cover, se));
    assert(tag_step(m).1 == SpecOutcome::Emit(se));
    assert(span_assembly(cover, tag_step(m).1));
}

/// One step accounts for its bytes: the cover of the step reassembles from
/// the outcome with nothing beside the event's spans but the documented
/// delimiters and dropped whitespace.
pub proof fn lemma_step_span_assembly(m: ScanModel)
    requires
        m.wf(),
        !(m.state is End),
    ensures
        span_assembly(step_span(m), scan_step(m).1),
{
    match m.state {
        ReaderState::End => {},
        ReaderState::LocatedTag => {
            lemma_find_byte(m.s, 0x3e, m.pos);
            let gt = find_byte_spec(m.s, 0x3e, m.pos);
            if gt < m.s.len() && scan_step(m).1 is Emit {
                assert(step_span(m) =~= Seq::<u8>::empty() + Seq::<u8>::empty() + m.s.subrange(
                    m.pos,
                    gt,
                ) + seq![0x3eu8]);
                lemma_tag_span_assembly_with(
                    m,
                    Seq::<u8>::empty(),
                    Seq::<u8>::empty(),
                    step_span(m),
                );
            }
        },
        ReaderState::Searching => {
            lemma_find_byte(m.s, 0x3c, m.pos);
            let lt = find_byte_spec(m.s, 0x3c, m.pos);
            let raw = m.s.subrange(m.pos, lt);
            let found = lt < m.s.len();
            let text = if m.trim {
                trim_spec(raw)
            } else {
                raw
            };
            if text.len() > 0 {
                let cover = step_span(m);
                let mark: Seq<u8> = if found {
                    seq![0x3cu8]
                } else {
                    Seq::<u8>::empty()
                };
                if found {
                    assert(cover =~= raw + mark);
                } else {
                    assert(cover =~= raw + mark);
                }
                if m.trim {
                    lemma_trim_parts(raw);
                    lemma_find_nonws(raw, 0);
                    let a = find_nonws_spec(raw, 0);
                    let b = rfind_nonws_spec(raw) + 1;
                    assert(a < raw.len()) by {
                        if a == raw.len() {
                            assert(trim_spec(raw).len() == 0);
                        }
                    }
                    let pre = raw.subrange(0, a);
                    let post = raw.subrange(b, raw.len() as int);
                    assert(cover =~= pre + text + post + mark);
                    assert(text_span_assembly(cover, text, pre, post, mark));
                } else {
                    assert(cover =~= Seq::<u8>::empty() + text + Seq::<u8>::empty() + mark);
                    assert(text_span_assembly(
                        cover,
                        text,
                        Seq::<u8>::empty(),
                        Seq::<u8>::empty(),
                        mark,
                    ));
                }
                assert(text_event_span_ok(cover, text));
                assert(event_span_assembly(cover, (SpecEvent::Text { content: text })));
            } else {
                // The candidate was dropped: it is nothing but whitespace.
                assert(ws_seq(raw)) by {
                    if m.trim {
                        lemma_trim_parts(raw);
                        lemma_find_nonws(raw, 0);
                        if find_nonws_spec(raw, 0) < raw.len() {
                            assert(trim_spec(raw).len() > 0);
                        }
                    }
                }
                if found {
                    let m1 = ScanModel { pos: lt + 1, state: ReaderState::LocatedTag, ..m };
                    lemma_find_byte(m.s, 0x3e, lt + 1);
                    let gt = find_byte_spec(m.s, 0x3e, lt + 1);
                    if tag_step(m1).1 is Emit {
                        assert(step_span(m) =~= raw + seq![0x3cu8] + m.s.subrange(lt + 1, gt)
                            + seq![0x3eu8]);
                        lemma_tag_span_assembly_with(m1, raw, seq![0x3cu8], step_span(m));
                    }
                } else {
                    assert(step_span(m) == raw);
                    assert(ws_seq(step_span(m)));
                }
            }
        },
    }
}

/// Whole-run round trip: every step of a scan accounts for its bytes, and
/// an error-free scan accounts for every byte from the cursor to the end of
/// the input — nothing is dropped but the whitespace the steps name.
pub proof fn lemma_run_round_trip(m: ScanModel)
    requires
        m.wf(),
        !(m.state is End),
    ensures
        run_assembles(m),
        run_ok(m) ==> run_covered(m) == m.s.subrange(m.pos, m.s.len() as int),
    decreases scan_measure(m),
{
    lemma_step_span_assembly(m);
    lemma_step_wf(m);
    let m1 = scan_step(m).0;
    match scan_step(m).1 {
        SpecOutcome::Done => {
            assert(m1.state is End);
        },
        SpecOutcome::Fail(_) => {},
        SpecOutcome::Emit(_) => {
            lemma_emit_decreases(m);
            if m1.state is End {
                assert(run_assembles(m1));
                assert(run_covered(m1) == Seq::<u8>::empty());
                assert(step_span(m) + Seq::<u8>::empty() =~= m.s.subrange(
                    m.pos,
                    m.s.len() as int,
                ));
            } else {
                lemma_run_round_trip(m1);
                if run_ok(m) {
                    lemma_steps_concat(m.s, m.pos, m1.pos, m.s.len() as int);
                }
            }
        },
    }
}

/// The raw text candidate a searching step works on: everything from the
/// cursor up to the next `<`, or to the end of the input.
pub open spec fn search_raw(m: ScanModel) -> Seq<u8> {
    m.s.subrange(m.pos, find_byte_spec(m.s, 0x3c, m.pos))
}

/// The text a searching step would emit, were it non-empty: the raw
/// candidate, trimmed when trimming is on.
pub open spec fn search_text(m: ScanModel) -> Seq<u8> {
    if m.trim {
        trim_spec(search_raw(m))
    } else {
        search_raw(m)
    }
}

/// Round trip of one text step: the bytes a searching step walked past are
/// the raw candidate plus the `<` delimiter when a tag was found, and an
/// emitted text run is that candidate with only whitespace dropped at the
/// ends (nothing at all when trimming is off).
pub proof fn lemma_text_step_round_trip(m: ScanModel)
    requires
        m.wf(),
        m.state is Searching,
    ensures
        find_byte_spec(m.s, 0x3c, m.pos) < m.s.len() ==> m.s.subrange(
            m.pos,
            find_byte_spec(m.s, 0x3c, m.pos) + 1,
        ) == search_raw(m) + seq![0x3cu8],
        search_text(m).len() > 0 ==> scan_step(m).1 == SpecOutcome::Emit(
            SpecEvent::Text { content: search_text(m) },
        ),
        search_text(m).len() > 0 ==> exists|pre: Seq<u8>, post: Seq<u8>|
            text_assembly(search_raw(m), search_text(m), pre, post),
        !m.trim ==> search_text(m) == search_raw(m),
{
    lemma_find_byte(m.s, 0x3c, m.pos);
    let lt = find_byte_spec(m.s, 0x3c, m.pos);
    let raw = search_raw(m);
    if lt < m.s.len() {
        assert(m.s.subrange(m.pos, lt + 1) =~= raw + seq![0x3cu8]);
    }
    let text = search_text(m);
    if text.len() > 0 {
        if m.trim {
            lemma_trim_parts(raw);
            lemma_find_nonws(raw, 0);
            let a = find_nonws_spec(raw, 0);
            let b = rfind_nonws_spec(raw) + 1;
            assert(a < raw.len()) by {
                if a == raw.len() {
                    assert(trim_spec(raw).len() == 0);
                }
            }
            assert(text_assembly(raw, text, raw.subrange(0, a), raw.subrange(b, raw.len() as int)));
        } else {
            assert(raw =~= Seq::<u8>::empty() + text + Seq::<u8>::empty());
            assert(text_assembly(raw, text, Seq::<u8>::empty(), Seq::<u8>::empty()));
        }
    }
}

} // verus!
