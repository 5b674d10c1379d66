//! Byte-level text primitives over the UTF-8 encoding of a document.
//!
//! Every scanning routine of the server works on the bytes of a `&str`
//! (`s.spec_bytes()`, i.e. `encode_utf8(s@)`) with byte offsets, exactly as
//! `str::find`, `str::lines` and the slicing operators do.  The spec
//! functions here are index based: they take the whole byte sequence and a
//! half-open window `[lo, hi)` instead of building sub-sequences.

use vstd::prelude::*;
use vstd::string::StringSliceAdditionalSpecFns;
use vstd::utf8::*;

verus! {

broadcast use vstd::utf8::encode_utf8_valid_utf8;

// ---------------------------------------------------------------------------
// Character boundaries
// ---------------------------------------------------------------------------

/// `i` is the first byte of a character's encoding or the end of `b`.
pub open spec fn char_start(b: Seq<u8>, i: int) -> bool {
    i == b.len() || (0 <= i < b.len() && !is_continuation_byte(b[i]))
}

/// The width in bytes of the character whose leading byte is `c`.
pub open spec fn width_of_leading(c: u8) -> int {
    if c < 0x80 {
        1
    } else if c < 0xe0 {
        2
    } else if c < 0xf0 {
        3
    } else {
        4
    }
}

/// In valid UTF-8, the character starting at a character start `i` ends at
/// another character start.
pub proof fn lemma_char_next(b: Seq<u8>, i: int)
    requires
        valid_utf8(b),
        0 <= i < b.len(),
        !is_continuation_byte(b[i]),
    ensures
        i + width_of_leading(b[i]) <= b.len(),
        char_start(b, i + width_of_leading(b[i])),
    decreases b.len(),
{
    let l = length_of_first_scalar(b);
    let rest = pop_first_scalar(b);
    assert(valid_first_scalar(b));
    assert(valid_utf8(rest));
    assert(rest =~= b.subrange(l, b.len() as int));
    if i == 0 {
        if rest.len() > 0 {
            assert(valid_first_scalar(rest));
            assert(rest[0] == b[l]);
        }
    } else if i < l {
        assert(is_continuation_byte(b[i]));
    } else {
        assert(rest[i - l] == b[i]);
        lemma_char_next(rest, i - l);
        let w = width_of_leading(b[i]);
        if i - l + w < rest.len() {
            assert(rest[i - l + w] == b[i + w]);
        }
    }
}

/// A character start of a valid encoding is a `str` character boundary.
pub proof fn lemma_char_start_boundary(b: Seq<u8>, i: int)
    requires
        valid_utf8(b),
        char_start(b, i),
    ensures
        is_char_boundary(b, i),
{
    if i == b.len() {
        is_char_boundary_start_end_of_seq(b);
    } else {
        is_char_boundary_iff_not_is_continuation_byte(b, i);
    }
}

/// The byte after an ASCII byte starts a character.
pub proof fn lemma_after_ascii(b: Seq<u8>, i: int)
    requires
        valid_utf8(b),
        0 <= i < b.len(),
        b[i] < 0x80,
    ensures
        char_start(b, i + 1),
{
    lemma_char_next(b, i);
}

/// An ASCII byte starts a character.
pub proof fn lemma_ascii_start(b: Seq<u8>, i: int)
    requires
        0 <= i < b.len(),
        b[i] < 0x80,
    ensures
        char_start(b, i),
{
}

// ---------------------------------------------------------------------------
// Whitespace (`char::is_whitespace`, Unicode White_Space)
// ---------------------------------------------------------------------------

/// The ASCII whitespace bytes: tab, line feed, vertical tab, form feed,
/// carriage return and space.
pub open spec fn is_ascii_ws(c: u8) -> bool {
    c == 9 || c == 10 || c == 11 || c == 12 || c == 13 || c == 32
}

/// Length of the encoding of a whitespace character that starts at `i` and
/// ends at or before `hi`, or 0 when none does.  The characters are those of
/// the Unicode `White_Space` property: U+0009..U+000D, U+0020, U+0085,
/// U+00A0, U+1680, U+2000..U+200A, U+2028, U+2029, U+202F, U+205F, U+3000.
pub open spec fn ws_len_at(b: Seq<u8>, i: int, hi: int) -> int {
    if 0 <= i && i < hi && hi <= b.len() {
        let c = b[i];
        if is_ascii_ws(c) {
            1
        } else if c == 0xc2 && i + 2 <= hi && (b[i + 1] == 0x85 || b[i + 1] == 0xa0) {
            2
        } else if i + 3 <= hi && ((c == 0xe1 && b[i + 1] == 0x9a && b[i + 2] == 0x80) || (c
            == 0xe2 && b[i + 1] == 0x80 && ((0x80 <= b[i + 2] && b[i + 2] <= 0x8a) || b[i + 2]
            == 0xa8 || b[i + 2] == 0xa9 || b[i + 2] == 0xaf)) || (c == 0xe2 && b[i + 1] == 0x81
            && b[i + 2] == 0x9f) || (c == 0xe3 && b[i + 1] == 0x80 && b[i + 2] == 0x80)) {
            3
        } else {
            0
        }
    } else {
        0
    }
}

/// Length of the encoding of a whitespace character that ends at `j` and
/// starts at or after `lo`, or 0 when none does.
pub open spec fn ws_len_before(b: Seq<u8>, lo: int, j: int) -> int {
    if ws_len_at(b, j - 1, j) == 1 && lo <= j - 1 {
        1
    } else if ws_len_at(b, j - 2, j) == 2 && lo <= j - 2 {
        2
    } else if ws_len_at(b, j - 3, j) == 3 && lo <= j - 3 {
        3
    } else {
        0
    }
}

/// End of the run of whitespace characters starting at `i` (bounded by `hi`).
pub open spec fn skip_ws(b: Seq<u8>, i: int, hi: int) -> int
    decreases hi - i,
{
    if i < hi && ws_len_at(b, i, hi) > 0 {
        skip_ws(b, i + ws_len_at(b, i, hi), hi)
    } else {
        i
    }
}

/// Start of the run of whitespace characters ending at `j` (bounded by `lo`).
pub open spec fn skip_ws_back(b: Seq<u8>, lo: int, j: int) -> int
    decreases j - lo,
{
    if lo < j && ws_len_before(b, lo, j) > 0 {
        skip_ws_back(b, lo, j - ws_len_before(b, lo, j))
    } else {
        j
    }
}

/// First whitespace character at or after `i` and before `hi`, else `hi`.
pub open spec fn find_ws(b: Seq<u8>, i: int, hi: int) -> int
    decreases hi - i,
{
    if i < hi {
        if ws_len_at(b, i, hi) > 0 {
            i
        } else {
            find_ws(b, i + 1, hi)
        }
    } else {
        hi
    }
}

pub proof fn lemma_skip_ws_bounds(b: Seq<u8>, i: int, hi: int)
    requires
        0 <= i <= hi <= b.len(),
    ensures
        i <= skip_ws(b, i, hi) <= hi,
    decreases hi - i,
{
    if i < hi && ws_len_at(b, i, hi) > 0 {
        lemma_skip_ws_bounds(b, i + ws_len_at(b, i, hi), hi);
    }
}

pub proof fn lemma_skip_ws_back_bounds(b: Seq<u8>, lo: int, j: int)
    requires
        0 <= lo <= j <= b.len(),
    ensures
        lo <= skip_ws_back(b, lo, j) <= j,
    decreases j - lo,
{
    if lo < j && ws_len_before(b, lo, j) > 0 {
        lemma_skip_ws_back_bounds(b, lo, j - ws_len_before(b, lo, j));
    }
}

pub proof fn lemma_find_ws_bounds(b: Seq<u8>, i: int, hi: int)
    requires
        i <= hi,
    ensures
        i <= find_ws(b, i, hi) <= hi,
    decreases hi - i,
{
    if i < hi && ws_len_at(b, i, hi) == 0 {
        lemma_find_ws_bounds(b, i + 1, hi);
    }
}

/// Skipping whitespace from a character start ends at a character start.
pub proof fn lemma_skip_ws_char_start(b: Seq<u8>, i: int, hi: int)
    requires
        valid_utf8(b),
        0 <= i <= hi <= b.len(),
        char_start(b, i),
        char_start(b, hi),
    ensures
        char_start(b, skip_ws(b, i, hi)),
    decreases hi - i,
{
    if i < hi && ws_len_at(b, i, hi) > 0 {
        lemma_char_next(b, i);
        lemma_skip_ws_char_start(b, i + ws_len_at(b, i, hi), hi);
    }
}

/// Skipping whitespace backwards from a character start ends at one.
pub proof fn lemma_skip_ws_back_char_start(b: Seq<u8>, lo: int, j: int)
    requires
        0 <= lo <= j <= b.len(),
        char_start(b, j),
        char_start(b, lo),
    ensures
        char_start(b, skip_ws_back(b, lo, j)),
    decreases j - lo,
{
    if lo < j && ws_len_before(b, lo, j) > 0 {
        lemma_skip_ws_back_char_start(b, lo, j - ws_len_before(b, lo, j));
    }
}

/// A whitespace character found by `find_ws` starts a character.
pub proof fn lemma_find_ws_char_start(b: Seq<u8>, i: int, hi: int)
    requires
        0 <= i <= hi <= b.len(),
        char_start(b, hi),
    ensures
        char_start(b, find_ws(b, i, hi)),
    decreases hi - i,
{
    if i < hi && ws_len_at(b, i, hi) == 0 {
        lemma_find_ws_char_start(b, i + 1, hi);
    }
}

pub fn ws_len_at_exec(b: &[u8], i: usize, hi: usize) -> (r: usize)
    requires
        i <= hi <= b@.len(),
    ensures
        r == ws_len_at(b@, i as int, hi as int),
        r <= 3,
{
    if i >= hi {
        return 0;
    }
    let c = b[i];
    if c == 9 || c == 10 || c == 11 || c == 12 || c == 13 || c == 32 {
        1
    } else if c == 0xc2 && hi - i >= 2 && (b[i + 1] == 0x85 || b[i + 1] == 0xa0) {
        2
    } else if hi - i >= 3 {
        let c1 = b[i + 1];
        let c2 = b[i + 2];
        if (c == 0xe1 && c1 == 0x9a && c2 == 0x80) || (c == 0xe2 && c1 == 0x80 && ((0x80 <= c2
            && c2 <= 0x8a) || c2 == 0xa8 || c2 == 0xa9 || c2 == 0xaf)) || (c == 0xe2 && c1 == 0x81
            && c2 == 0x9f) || (c == 0xe3 && c1 == 0x80 && c2 == 0x80) {
            3
        } else {
            0
        }
    } else {
        0
    }
}

pub fn ws_len_before_exec(b: &[u8], lo: usize, j: usize) -> (r: usize)
    requires
        lo <= j <= b@.len(),
    ensures
        r == ws_len_before(b@, lo as int, j as int),
        r <= j - lo,
{
    if j - lo >= 1 && ws_len_at_exec(b, j - 1, j) == 1 {
        1
    } else if j - lo >= 2 && ws_len_at_exec(b, j - 2, j) == 2 {
        2
    } else if j - lo >= 3 && ws_len_at_exec(b, j - 3, j) == 3 {
        3
    } else {
        0
    }
}

/// `str::trim_start` on the window: the offset of the first non-whitespace
/// character.
pub fn skip_ws_exec(b: &[u8], i: usize, hi: usize) -> (r: usize)
    requires
        i <= hi <= b@.len(),
    ensures
        r == skip_ws(b@, i as int, hi as int),
        i <= r <= hi,
{
    let mut k = i;
    while k < hi
        invariant
            i <= k <= hi <= b@.len(),
            skip_ws(b@, i as int, hi as int) == skip_ws(b@, k as int, hi as int),
        decreases hi - k,
    {
        let w = ws_len_at_exec(b, k, hi);
        if w == 0 {
            return k;
        }
        k = k + w;
    }
    k
}

/// `str::trim_end` on the window: the offset after the last
/// non-whitespace character.
pub fn skip_ws_back_exec(b: &[u8], lo: usize, j: usize) -> (r: usize)
    requires
        lo <= j <= b@.len(),
    ensures
        r == skip_ws_back(b@, lo as int, j as int),
        lo <= r <= j,
{
    let mut k = j;
    while k > lo
        invariant
            lo <= k <= j <= b@.len(),
            skip_ws_back(b@, lo as int, j as int) == skip_ws_back(b@, lo as int, k as int),
        decreases k - lo,
    {
        let w = ws_len_before_exec(b, lo, k);
        if w == 0 {
            return k;
        }
        k = k - w;
    }
    k
}

/// `find(char::is_whitespace)` on the window, or `hi` when none.
pub fn find_ws_exec(b: &[u8], i: usize, hi: usize) -> (r: usize)
    requires
        i <= hi <= b@.len(),
    ensures
        r == find_ws(b@, i as int, hi as int),
        i <= r <= hi,
{
    let mut k = i;
    while k < hi
        invariant
            i <= k <= hi <= b@.len(),
            find_ws(b@, i as int, hi as int) == find_ws(b@, k as int, hi as int),
        decreases hi - k,
    {
        if ws_len_at_exec(b, k, hi) > 0 {
            return k;
        }
        k = k + 1;
    }
    k
}

// ---------------------------------------------------------------------------
// Substring search
// ---------------------------------------------------------------------------

/// `n` occurs in `b` at offset `i`.
pub open spec fn matches_at(b: Seq<u8>, i: int, n: Seq<u8>) -> bool {
    &&& 0 <= i
    &&& i + n.len() <= b.len()
    &&& forall|k: int| 0 <= k < n.len() ==> #[trigger] b[i + k] == n[k]
}

/// First occurrence of `n` at an offset `>= i` that ends at or before `hi`.
pub open spec fn find_from(b: Seq<u8>, i: int, hi: int, n: Seq<u8>) -> Option<int>
    decreases hi + 1 - i,
{
    if i + n.len() > hi {
        None
    } else if matches_at(b, i, n) {
        Some(i)
    } else {
        find_from(b, i + 1, hi, n)
    }
}

/// Last occurrence of `n` at an offset in `[lo, top]`.
pub open spec fn rfind_to(b: Seq<u8>, lo: int, top: int, n: Seq<u8>) -> Option<int>
    decreases top - lo + 1,
{
    if top < lo {
        None
    } else if matches_at(b, top, n) {
        Some(top)
    } else {
        rfind_to(b, lo, top - 1, n)
    }
}

/// `str::rfind` on the window `[lo, hi)`.
pub open spec fn rfind_in(b: Seq<u8>, lo: int, hi: int, n: Seq<u8>) -> Option<int> {
    rfind_to(b, lo, hi - n.len(), n)
}

pub proof fn lemma_find_from_bounds(b: Seq<u8>, i: int, hi: int, n: Seq<u8>)
    ensures
        find_from(b, i, hi, n) matches Some(p) ==> i <= p && p + n.len() <= hi && matches_at(
            b,
            p,
            n,
        ),
        find_from(b, i, hi, n) is None ==> forall|p: int|
            i <= p && p + n.len() <= hi ==> !matches_at(b, p, n),
    decreases hi + 1 - i,
{
    if i + n.len() > hi {
    } else if matches_at(b, i, n) {
    } else {
        lemma_find_from_bounds(b, i + 1, hi, n);
    }
}

pub proof fn lemma_rfind_to_bounds(b: Seq<u8>, lo: int, top: int, n: Seq<u8>)
    ensures
        rfind_to(b, lo, top, n) matches Some(p) ==> lo <= p <= top && matches_at(b, p, n),
        rfind_to(b, lo, top, n) is None ==> forall|p: int| lo <= p <= top ==> !matches_at(b, p, n),
    decreases top - lo + 1,
{
    if top < lo {
    } else if matches_at(b, top, n) {
    } else {
        lemma_rfind_to_bounds(b, lo, top - 1, n);
    }
}

pub fn matches_at_exec(b: &[u8], i: usize, n: &[u8]) -> (r: bool)
    ensures
        r == matches_at(b@, i as int, n@),
{
    if i > b.len() || n.len() > b.len() - i {
        return false;
    }
    let blen = b.len();
    let mut k: usize = 0;
    while k < n.len()
        invariant
            blen == b@.len(),
            i + n@.len() <= b@.len(),
            0 <= k <= n@.len(),
            forall|m: int| 0 <= m < k ==> #[trigger] b@[i + m] == n@[m],
        decreases n@.len() - k,
    {
        if b[i + k] != n[k] {
            assert(b@[i + k as int] != n@[k as int]);
            return false;
        }
        k = k + 1;
    }
    true
}

/// `str::find` on the window `[lo, hi)`: the absolute offset of the first
/// occurrence of `n`.
pub fn find_exec(b: &[u8], lo: usize, hi: usize, n: &[u8]) -> (r: Option<usize>)
    requires
        lo <= hi <= b@.len(),
    ensures
        r matches Some(p) ==> find_from(b@, lo as int, hi as int, n@) == Some(p as int),
        r is None ==> find_from(b@, lo as int, hi as int, n@) is None,
{
    let mut i = lo;
    while i <= hi
        invariant
            lo <= i <= hi + 1,
            hi <= b@.len(),
            find_from(b@, lo as int, hi as int, n@) == find_from(b@, i as int, hi as int, n@),
        decreases hi + 1 - i,
    {
        if n.len() > hi - i {
            return None;
        }
        if matches_at_exec(b, i, n) {
            return Some(i);
        }
        i = i + 1;
    }
    None
}

/// `str::rfind` on the window `[lo, hi)`: the absolute offset of the last
/// occurrence of `n`.
pub fn rfind_exec(b: &[u8], lo: usize, hi: usize, n: &[u8]) -> (r: Option<usize>)
    requires
        lo <= hi <= b@.len(),
    ensures
        r matches Some(p) ==> rfind_in(b@, lo as int, hi as int, n@) == Some(p as int),
        r is None ==> rfind_in(b@, lo as int, hi as int, n@) is None,
{
    if n.len() > hi - lo {
        return None;
    }
    let mut top = hi - n.len();
    loop
        invariant
            lo <= top <= hi - n@.len(),
            hi <= b@.len(),
            rfind_in(b@, lo as int, hi as int, n@) == rfind_to(b@, lo as int, top as int, n@),
        decreases top - lo,
    {
        if matches_at_exec(b, top, n) {
            return Some(top);
        }
        if top == lo {
            assert(rfind_to(b@, lo as int, top - 1, n@) is None);
            return None;
        }
        top = top - 1;
    }
}

// ---------------------------------------------------------------------------
// Lines (`str::lines`)
// ---------------------------------------------------------------------------

/// First line feed at or after `i`, or the end of `b`.
pub open spec fn next_nl(b: Seq<u8>, i: int) -> int
    decreases b.len() - i,
{
    if i >= b.len() {
        b.len() as int
    } else if b[i] == 10 {
        i
    } else {
        next_nl(b, i + 1)
    }
}

/// Offset of the first byte of the `n`-th line yielded by `str::lines`.
pub open spec fn line_start(b: Seq<u8>, n: nat) -> Option<int>
    decreases n,
{
    if n == 0 {
        if b.len() > 0 {
            Some(0)
        } else {
            None
        }
    } else {
        match line_start(b, (n - 1) as nat) {
            Some(s) => if next_nl(b, s) + 1 < b.len() {
                Some(next_nl(b, s) + 1)
            } else {
                None
            },
            None => None,
        }
    }
}

/// End of the line that starts at `s`: the line feed, minus a carriage
/// return right before it.
pub open spec fn line_end(b: Seq<u8>, s: int) -> int {
    let e = next_nl(b, s);
    if e < b.len() && e > s && b[e - 1] == 13 {
        e - 1
    } else {
        e
    }
}

/// `content.lines().nth(n)` as a byte range `[start, end)`.
pub open spec fn nth_line(b: Seq<u8>, n: nat) -> Option<(int, int)> {
    match line_start(b, n) {
        Some(s) => Some((s, line_end(b, s))),
        None => None,
    }
}

pub proof fn lemma_next_nl_bounds(b: Seq<u8>, i: int)
    requires
        0 <= i,
    ensures
        i <= next_nl(b, i) || i > b.len(),
        next_nl(b, i) <= b.len(),
        next_nl(b, i) < b.len() ==> b[next_nl(b, i)] == 10,
        forall|k: int| i <= k < next_nl(b, i) ==> b[k] != 10,
    decreases b.len() - i,
{
    if i >= b.len() {
    } else if b[i] == 10 {
    } else {
        lemma_next_nl_bounds(b, i + 1);
    }
}

pub proof fn lemma_line_start_bounds(b: Seq<u8>, n: nat)
    ensures
        line_start(b, n) matches Some(s) ==> 0 <= s < b.len(),
        valid_utf8(b) ==> (line_start(b, n) matches Some(s) ==> char_start(b, s)),
    decreases n,
{
    if n > 0 {
        lemma_line_start_bounds(b, (n - 1) as nat);
        if let Some(s) = line_start(b, (n - 1) as nat) {
            lemma_next_nl_bounds(b, s);
            let e = next_nl(b, s);
            if e + 1 < b.len() && valid_utf8(b) {
                lemma_after_ascii(b, e);
            }
        }
    }
}

/// The bytes of every line lie in `b`, and in valid UTF-8 both ends start
/// characters.
pub proof fn lemma_nth_line(b: Seq<u8>, n: nat)
    ensures
        nth_line(b, n) matches Some((s, e)) ==> {
            &&& 0 <= s <= e <= b.len()
            &&& forall|k: int| s <= k < e ==> b[k] != 10
            &&& valid_utf8(b) ==> char_start(b, s) && char_start(b, e)
        },
{
    lemma_line_start_bounds(b, n);
    if let Some(s) = line_start(b, n) {
        lemma_next_nl_bounds(b, s);
        let e = next_nl(b, s);
        if e < b.len() && e > s && b[e - 1] == 13 {
            lemma_ascii_start(b, e - 1);
        } else if e < b.len() {
            lemma_ascii_start(b, e);
        }
    }
}

/// The next line start after a line that starts at `s`.
pub open spec fn next_line_start(b: Seq<u8>, s: int) -> Option<int> {
    if next_nl(b, s) + 1 < b.len() {
        Some(next_nl(b, s) + 1)
    } else {
        None
    }
}

/// Scan of the line that starts at `s`: its end and the start of the next
/// line, if any.
pub fn line_at_exec(b: &[u8], s: usize) -> (r: (usize, Option<usize>))
    requires
        s < b@.len(),
    ensures
        r.0 == line_end(b@, s as int),
        r.1 matches Some(t) ==> next_line_start(b@, s as int) == Some(t as int),
        r.1 is None ==> next_line_start(b@, s as int) is None,
        s <= r.0 <= b@.len(),
{
    let mut e = s;
    while e < b.len() && b[e] != 10
        invariant
            s <= e <= b@.len(),
            next_nl(b@, s as int) == next_nl(b@, e as int),
        decreases b@.len() - e,
    {
        e = e + 1;
    }
    proof {
        lemma_next_nl_bounds(b@, e as int);
    }
    let end = if e < b.len() && e > s && b[e - 1] == 13 {
        e - 1
    } else {
        e
    };
    let next = if e < b.len() && e + 1 < b.len() {
        Some(e + 1)
    } else {
        None
    };
    (end, next)
}

/// `content.lines().nth(n)`: the byte range of the `n`-th line.
pub fn nth_line_exec(b: &[u8], n: usize) -> (r: Option<(usize, usize)>)
    ensures
        r matches Some((s, e)) ==> nth_line(b@, n as nat) == Some((s as int, e as int)),
        r is None ==> nth_line(b@, n as nat) is None,
{
    if b.len() == 0 {
        proof {
            lemma_line_start_none_after(b@, 0, n as nat);
        }
        return None;
    }
    let mut s: usize = 0;
    let mut k: usize = 0;
    while k < n
        invariant
            0 <= k <= n,
            line_start(b@, k as nat) == Some(s as int),
            s < b@.len(),
        decreases n - k,
    {
        let (_, next) = line_at_exec(b, s);
        match next {
            Some(t) => {
                s = t;
            },
            None => {
                proof {
                    lemma_line_start_none_after(b@, (k + 1) as nat, n as nat);
                }
                return None;
            },
        }
        k = k + 1;
    }
    let (e, _) = line_at_exec(b, s);
    Some((s, e))
}

/// Once a line is missing, so are all later ones.
pub proof fn lemma_line_start_none_after(b: Seq<u8>, m: nat, n: nat)
    requires
        m <= n,
        line_start(b, m) is None,
    ensures
        line_start(b, n) is None,
    decreases n - m,
{
    if m < n {
        lemma_line_start_none_after(b, m + 1, n);
    }
}

// ---------------------------------------------------------------------------
// Substrings
// ---------------------------------------------------------------------------

/// The characters of `s`, in order.
pub fn chars_of(s: &str) -> (v: Vec<char>)
    ensures
        v@ == s@,
{
    let mut v: Vec<char> = Vec::new();
    for c in it: s.chars()
        invariant
            v@ == it.seq().take(it.index() as int),
            it.seq() == s@,
    {
        v.push(c);
    }
    v
}

/// `&s[start..end]`.
pub fn slice_str(s: &str, start: usize, end: usize) -> (r: &str)
    requires
        start <= end <= s.spec_bytes().len(),
        char_start(s.spec_bytes(), start as int),
        char_start(s.spec_bytes(), end as int),
    ensures
        r.spec_bytes() == s.spec_bytes().subrange(start as int, end as int),
        encode_utf8(r@) == s.spec_bytes().subrange(start as int, end as int),
{
    let ghost b = s.spec_bytes();
    proof {
        lemma_char_start_boundary(b, start as int);
    }
    let (_, tail) = s.split_at(start);
    let ghost t = tail.spec_bytes();
    proof {
        assert(t =~= b.subrange(start as int, b.len() as int));
        assert(valid_utf8(t));
        if end < b.len() {
            assert(t[end - start] == b[end as int]);
        }
        assert(char_start(t, end - start));
        lemma_char_start_boundary(t, end - start);
    }
    let (mid, _) = tail.split_at(end - start);
    proof {
        assert(mid.spec_bytes() =~= b.subrange(start as int, end as int));
    }
    mid
}

/// The `String` whose UTF-8 encoding is `s`'s bytes in `[start, end)`, as
/// `s[start..end].to_owned()` gives it.
pub fn substring(s: &str, start: usize, end: usize) -> (r: String)
    requires
        start <= end <= s.spec_bytes().len(),
        char_start(s.spec_bytes(), start as int),
        char_start(s.spec_bytes(), end as int),
    ensures
        encode_utf8(r@) == s.spec_bytes().subrange(start as int, end as int),
{
    slice_str(s, start, end).to_owned()
}

// ---------------------------------------------------------------------------
// Byte strings
// ---------------------------------------------------------------------------

/// The bytes of `prefix`, `middle` and `suffix` in a row.
pub fn bytes_with(prefix: &[u8], middle: &[u8], suffix: &[u8]) -> (r: Vec<u8>)
    ensures
        r@ == prefix@ + middle@ + suffix@,
{
    let mut v: Vec<u8> = Vec::new();
    let mut i: usize = 0;
    while i < prefix.len()
        invariant
            0 <= i <= prefix@.len(),
            v@ == prefix@.take(i as int),
        decreases prefix@.len() - i,
    {
        v.push(prefix[i]);
        i = i + 1;
        proof {
            assert(v@ =~= prefix@.take(i as int));
        }
    }
    let mut j: usize = 0;
    while j < middle.len()
        invariant
            0 <= j <= middle@.len(),
            v@ == prefix@ + middle@.take(j as int),
        decreases middle@.len() - j,
    {
        proof {
            assert(prefix@.take(prefix@.len() as int) =~= prefix@);
        }
        v.push(middle[j]);
        j = j + 1;
        proof {
            assert(v@ =~= prefix@ + middle@.take(j as int));
        }
    }
    let mut l: usize = 0;
    while l < suffix.len()
        invariant
            0 <= l <= suffix@.len(),
            v@ == prefix@ + middle@ + suffix@.take(l as int),
        decreases suffix@.len() - l,
    {
        v.push(suffix[l]);
        l = l + 1;
        proof {
            assert(v@ =~= prefix@ + middle@ + suffix@.take(l as int));
        }
    }
    proof {
        assert(prefix@.take(prefix@.len() as int) =~= prefix@);
        assert(middle@.take(middle@.len() as int) =~= middle@);
        assert(suffix@.take(suffix@.len() as int) =~= suffix@);
        assert(v@ =~= prefix@ + middle@ + suffix@);
    }
    v
}

// ---------------------------------------------------------------------------
// Equality
// ---------------------------------------------------------------------------

/// Whether two byte slices are equal.
pub fn bytes_equal(s: &[u8], lit: &[u8]) -> (r: bool)
    ensures
        r == (s@ == lit@),
{
    if s.len() != lit.len() {
        return false;
    }
    let mut k: usize = 0;
    while k < s.len()
        invariant
            s@.len() == lit@.len(),
            0 <= k <= s@.len(),
            forall|j: int| 0 <= j < k ==> s@[j] == lit@[j],
        decreases s@.len() - k,
    {
        if s[k] != lit[k] {
            return false;
        }
        k = k + 1;
    }
    assert(s@ =~= lit@);
    true
}

/// Whether two strings have the same characters.
pub fn same_str(a: &str, b: &str) -> (r: bool)
    ensures
        r == (a@ == b@),
{
    let r = bytes_equal(a.as_bytes(), b.as_bytes());
    proof {
        vstd::utf8::encode_utf8_decode_utf8(a@);
        vstd::utf8::encode_utf8_decode_utf8(b@);
    }
    r
}

} // verus!
