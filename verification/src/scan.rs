//! Byte classes and the linear-scan primitives the tokenizer is built on:
//! searching for a single byte or a class of bytes within a span, and
//! trimming whitespace from both ends of a span.

use vstd::prelude::*;
use vstd::slice::{slice_index_get, slice_subrange};

verus! {

/// Whitespace is any byte at or below ASCII space, not Unicode whitespace.
pub open spec fn is_ws(b: u8) -> bool {
    b <= 0x20
}

/// Quote characters that may delimit an attribute value.
pub open spec fn is_quote(b: u8) -> bool {
    b == 0x22 || b == 0x27
}

/// Bytes allowed to begin a tag name: ASCII letters, and every byte above
/// the ASCII range. Controls, digits, punctuation and DEL are excluded.
pub open spec fn name_start_ok(b: u8) -> bool {
    (0x41 <= b && b <= 0x5a) || (0x61 <= b && b <= 0x7a) || b >= 0x80
}

/// Index of the first occurrence of `b` at or after `from`; `s.len()` if none.
pub open spec fn find_byte_spec(s: Seq<u8>, b: u8, from: int) -> int
    recommends
        0 <= from <= s.len(),
    decreases s.len() - from when 0 <= from <= s.len()
{
    if from >= s.len() {
        s.len() as int
    } else if s[from] == b {
        from
    } else {
        find_byte_spec(s, b, from + 1)
    }
}

/// Index of the first whitespace byte at or after `from`; `s.len()` if none.
pub open spec fn find_ws_spec(s: Seq<u8>, from: int) -> int
    recommends
        0 <= from <= s.len(),
    decreases s.len() - from when 0 <= from <= s.len()
{
    if from >= s.len() {
        s.len() as int
    } else if is_ws(s[from]) {
        from
    } else {
        find_ws_spec(s, from + 1)
    }
}

/// Index of the first non-whitespace byte at or after `from`; `s.len()` if none.
pub open spec fn find_nonws_spec(s: Seq<u8>, from: int) -> int
    recommends
        0 <= from <= s.len(),
    decreases s.len() - from when 0 <= from <= s.len()
{
    if from >= s.len() {
        s.len() as int
    } else if !is_ws(s[from]) {
        from
    } else {
        find_nonws_spec(s, from + 1)
    }
}

/// Index of the first quote byte at or after `from`; `s.len()` if none.
pub open spec fn find_quote_spec(s: Seq<u8>, from: int) -> int
    recommends
        0 <= from <= s.len(),
    decreases s.len() - from when 0 <= from <= s.len()
{
    if from >= s.len() {
        s.len() as int
    } else if is_quote(s[from]) {
        from
    } else {
        find_quote_spec(s, from + 1)
    }
}

/// Index of the last non-whitespace byte of `s`; `-1` if every byte is whitespace.
pub open spec fn rfind_nonws_spec(s: Seq<u8>) -> int
    decreases s.len(),
{
    if s.len() == 0 {
        -1
    } else if !is_ws(s[s.len() - 1]) {
        s.len() - 1
    } else {
        rfind_nonws_spec(s.drop_last())
    }
}

/// The maximal interior subrange of `s` with no leading or trailing
/// whitespace; empty if `s` is empty or all whitespace.
pub open spec fn trim_spec(s: Seq<u8>) -> Seq<u8> {
    if find_nonws_spec(s, 0) == s.len() {
        Seq::empty()
    } else {
        s.subrange(find_nonws_spec(s, 0), rfind_nonws_spec(s) + 1)
    }
}

/// `find_byte_spec` names the first occurrence: the byte there matches and no
/// earlier byte at or after `from` does.
pub proof fn lemma_find_byte(s: Seq<u8>, b: u8, from: int)
    requires
        0 <= from <= s.len(),
    ensures
        from <= find_byte_spec(s, b, from) <= s.len(),
        find_byte_spec(s, b, from) < s.len() ==> s[find_byte_spec(s, b, from)] == b,
        forall|k: int| from <= k < find_byte_spec(s, b, from) ==> s[k] != b,
    decreases s.len() - from,
{
    if from < s.len() && s[from] != b {
        lemma_find_byte(s, b, from + 1);
    }
}

/// `find_ws_spec` names the first whitespace byte at or after `from`.
pub proof fn lemma_find_ws(s: Seq<u8>, from: int)
    requires
        0 <= from <= s.len(),
    ensures
        from <= find_ws_spec(s, from) <= s.len(),
        find_ws_spec(s, from) < s.len() ==> is_ws(s[find_ws_spec(s, from)]),
        forall|k: int| from <= k < find_ws_spec(s, from) ==> !is_ws(s[k]),
    decreases s.len() - from,
{
    if from < s.len() && !is_ws(s[from]) {
        lemma_find_ws(s, from + 1);
    }
}

/// `find_nonws_spec` names the first non-whitespace byte at or after `from`.
pub proof fn lemma_find_nonws(s: Seq<u8>, from: int)
    requires
        0 <= from <= s.len(),
    ensures
        from <= find_nonws_spec(s, from) <= s.len(),
        find_nonws_spec(s, from) < s.len() ==> !is_ws(s[find_nonws_spec(s, from)]),
        forall|k: int| from <= k < find_nonws_spec(s, from) ==> is_ws(s[k]),
    decreases s.len() - from,
{
    if from < s.len() && is_ws(s[from]) {
        lemma_find_nonws(s, from + 1);
    }
}

/// `find_quote_spec` names the first quote byte at or after `from`.
pub proof fn lemma_find_quote(s: Seq<u8>, from: int)
    requires
        0 <= from <= s.len(),
    ensures
        from <= find_quote_spec(s, from) <= s.len(),
        find_quote_spec(s, from) < s.len() ==> is_quote(s[find_quote_spec(s, from)]),
        forall|k: int| from <= k < find_quote_spec(s, from) ==> !is_quote(s[k]),
    decreases s.len() - from,
{
    if from < s.len() && !is_quote(s[from]) {
        lemma_find_quote(s, from + 1);
    }
}

/// `rfind_nonws_spec` names the last non-whitespace byte: everything after it
/// is whitespace, and `-1` means the whole span is whitespace.
pub proof fn lemma_rfind_nonws(s: Seq<u8>)
    ensures
        -1 <= rfind_nonws_spec(s) < s.len(),
        rfind_nonws_spec(s) >= 0 ==> !is_ws(s[rfind_nonws_spec(s)]),
        forall|k: int| rfind_nonws_spec(s) < k < s.len() ==> is_ws(s[k]),
    decreases s.len(),
{
    if s.len() > 0 && is_ws(s[s.len() - 1]) {
        lemma_rfind_nonws(s.drop_last());
        assert forall|k: int| rfind_nonws_spec(s) < k < s.len() implies is_ws(s[k]) by {
            if k < s.len() - 1 {
                assert(s.drop_last()[k] == s[k]);
            }
        }
    }
}

/// Linear search for a single byte, the classic `memchr` routine.
pub(crate) fn memchr(needle: u8, haystack: &[u8]) -> (r: Option<usize>)
    ensures
        ({
            let j = find_byte_spec(haystack@, needle, 0);
            match r {
                Some(i) => i == j && j < haystack@.len(),
                None => j == haystack@.len(),
            }
        }),
{
    find_byte_from(haystack, needle, 0)
}

/// First occurrence of `b` at or after `from`, as `find_byte_spec` names it.
pub(crate) fn find_byte_from(s: &[u8], b: u8, from: usize) -> (r: Option<usize>)
    requires
        from <= s@.len(),
    ensures
        ({
            let j = find_byte_spec(s@, b, from as int);
            match r {
                Some(i) => i == j && j < s@.len(),
                None => j == s@.len(),
            }
        }),
{
    let n = s.len();
    let mut i = from;
    while i < n
        invariant
            from <= i <= n,
            n == s@.len(),
            forall|k: int| from <= k < i ==> s@[k] != b,
        decreases n - i,
    {
        if *slice_index_get(s, i) == b {
            proof {
                lemma_find_byte(s@, b, from as int);
            }
            return Some(i);
        }
        i = i + 1;
    }
    proof {
        lemma_find_byte(s@, b, from as int);
    }
    None
}

/// First whitespace byte at or after `from`, as `find_ws_spec` names it.
pub(crate) fn find_ws_from(s: &[u8], from: usize) -> (r: Option<usize>)
    requires
        from <= s@.len(),
    ensures
        ({
            let j = find_ws_spec(s@, from as int);
            match r {
                Some(i) => i == j && j < s@.len(),
                None => j == s@.len(),
            }
        }),
{
    let n = s.len();
    let mut i = from;
    while i < n
        invariant
            from <= i <= n,
            n == s@.len(),
            forall|k: int| from <= k < i ==> !is_ws(s@[k]),
        decreases n - i,
    {
        if *slice_index_get(s, i) <= 0x20 {
            proof {
                lemma_find_ws(s@, from as int);
            }
            return Some(i);
        }
        i = i + 1;
    }
    proof {
        lemma_find_ws(s@, from as int);
    }
    None
}

/// First non-whitespace byte at or after `from`, as `find_nonws_spec` names it.
pub(crate) fn find_nonws_from(s: &[u8], from: usize) -> (r: Option<usize>)
    requires
        from <= s@.len(),
    ensures
        ({
            let j = find_nonws_spec(s@, from as int);
            match r {
                Some(i) => i == j && j < s@.len(),
                None => j == s@.len(),
            }
        }),
{
    let n = s.len();
    let mut i = from;
    while i < n
        invariant
            from <= i <= n,
            n == s@.len(),
            forall|k: int| from <= k < i ==> is_ws(s@[k]),
        decreases n - i,
    {
        if *slice_index_get(s, i) > 0x20 {
            proof {
                lemma_find_nonws(s@, from as int);
            }
            return Some(i);
        }
        i = i + 1;
    }
    proof {
        lemma_find_nonws(s@, from as int);
    }
    None
}

/// First quote byte at or after `from`, as `find_quote_spec` names it.
pub(crate) fn find_quote_from(s: &[u8], from: usize) -> (r: Option<usize>)
    requires
        from <= s@.len(),
    ensures
        ({
            let j = find_quote_spec(s@, from as int);
            match r {
                Some(i) => i == j && j < s@.len(),
                None => j == s@.len(),
            }
        }),
{
    let n = s.len();
    let mut i = from;
    while i < n
        invariant
            from <= i <= n,
            n == s@.len(),
            forall|k: int| from <= k < i ==> !is_quote(s@[k]),
        decreases n - i,
    {
        let c = *slice_index_get(s, i);
        if c == 0x22 || c == 0x27 {
            proof {
                lemma_find_quote(s@, from as int);
            }
            return Some(i);
        }
        i = i + 1;
    }
    proof {
        lemma_find_quote(s@, from as int);
    }
    None
}

/// The maximal interior subspan of `text` with no whitespace at either end.
pub(crate) fn trim_whitespace(text: &[u8]) -> (r: &[u8])
    ensures
        r@ == trim_spec(text@),
{
    let n = text.len();
    proof {
        lemma_find_nonws(text@, 0);
    }
    let lo = match find_nonws_from(text, 0) {
        Some(l) => l,
        None => {
            proof {
                assert(text@.subrange(0, 0) =~= Seq::<u8>::empty());
            }
            return slice_subrange(text, 0, 0);
        },
    };
    let mut hi = n;
    while hi > 0 && *slice_index_get(text, hi - 1) <= 0x20
        invariant
            lo < hi <= n,
            n == text@.len(),
            lo < n,
            !is_ws(text@[lo as int]),
            forall|k: int| hi <= k < n ==> is_ws(text@[k]),
        decreases hi,
    {
        hi = hi - 1;
    }
    proof {
        lemma_rfind_nonws(text@);
        assert(lo < hi) by {
            if hi <= lo {
                assert(is_ws(text@[lo as int]));
            }
        }
        assert(rfind_nonws_spec(text@) == hi - 1);
    }
    slice_subrange(text, lo, hi)
}

/// `name` can begin a tag: it is non-empty and its first byte is allowed to
/// start a name. Interior bytes are unrestricted.
pub(crate) fn is_valid_tag_name(name: &[u8]) -> (r: bool)
    ensures
        r == (name@.len() > 0 && name_start_ok(name@[0])),
{
    if name.len() == 0 {
        false
    } else {
        let b = *slice_index_get(name, 0);
        (0x41 <= b && b <= 0x5a) || (0x61 <= b && b <= 0x7a) || b >= 0x80
    }
}

} // verus!
