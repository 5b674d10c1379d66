//! Conversion between source positions (1-based, byte offsets) and LSP
//! positions (0-based, UTF-16 code unit offsets).

use vstd::prelude::*;
use vstd::string::StringSliceAdditionalSpecFns;
use vstd::utf8::{decode_utf8, encode_scalar, encode_utf8};
use crate::text::{
    chars_of, char_start, lemma_after_ascii, lemma_next_nl_bounds, lemma_nth_line, next_nl, nth_line,
    nth_line_exec, slice_str,
};

verus! {

broadcast use vstd::utf8::char_is_scalar, vstd::utf8::encode_utf8_decode_utf8,
    vstd::utf8::encode_utf8_valid_utf8;

/// A 0-based LSP position: line and UTF-16 character offset.
#[derive(Clone, Copy, Debug, PartialEq, Eq, Structural)]
pub struct Position {
    pub line: u32,
    pub character: u32,
}

/// An LSP range between two positions.
#[derive(Clone, Copy, Debug, PartialEq, Eq, Structural)]
pub struct Range {
    pub start: Position,
    pub end: Position,
}

/// A text edit: replace `range` with `new_text`.
#[derive(Debug, Clone, PartialEq, Eq)]
pub struct TextEdit {
    pub range: Range,
    pub new_text: String,
}

/// A 1-based (line, byte column) position in a source file.
#[derive(Clone, Copy, Debug, PartialEq, Eq, Structural)]
pub struct SourcePosition {
    pub line: usize,
    pub column: usize,
}

/// Number of UTF-8 bytes that encode `c`.
pub open spec fn utf8_width(c: char) -> int {
    encode_scalar(c as u32).len() as int
}

/// Number of UTF-16 code units that encode `c`.
pub open spec fn utf16_width(c: char) -> int {
    if (c as u32) >= 0x10000 {
        2
    } else {
        1
    }
}

/// UTF-16 length of the characters of `cs` whose first byte lies before
/// byte offset `off` (the characters that `char_indices` yields with an
/// index below `off`).
pub open spec fn utf16_before(cs: Seq<char>, off: int) -> int
    decreases cs.len(),
{
    if cs.len() == 0 || off <= 0 {
        0
    } else {
        utf16_width(cs[0]) + utf16_before(cs.drop_first(), off - utf8_width(cs[0]))
    }
}

/// Byte offset of the first character at which the running UTF-16 count
/// reaches `t`; the byte length of `cs` when it never does.
pub open spec fn byte_at_utf16(cs: Seq<char>, t: int) -> int
    decreases cs.len(),
{
    if cs.len() == 0 || t <= 0 {
        0
    } else {
        utf8_width(cs[0]) + byte_at_utf16(cs.drop_first(), t - utf16_width(cs[0]))
    }
}

/// Total UTF-8 length of `cs`.
pub open spec fn utf8_len(cs: Seq<char>) -> int
    decreases cs.len(),
{
    if cs.len() == 0 {
        0
    } else {
        utf8_width(cs[0]) + utf8_len(cs.drop_first())
    }
}

/// Total UTF-16 length of `cs`.
pub open spec fn utf16_len(cs: Seq<char>) -> int
    decreases cs.len(),
{
    if cs.len() == 0 {
        0
    } else {
        utf16_width(cs[0]) + utf16_len(cs.drop_first())
    }
}

pub proof fn lemma_widths(c: char)
    ensures
        1 <= utf8_width(c) <= 4,
        1 <= utf16_width(c) <= 2,
        utf16_width(c) <= utf8_width(c),
        utf16_width(c) == 2 ==> utf8_width(c) == 4,
{
}

pub proof fn lemma_utf8_len_encode(cs: Seq<char>)
    ensures
        utf8_len(cs) == encode_utf8(cs).len(),
    decreases cs.len(),
{
    if cs.len() > 0 {
        lemma_utf8_len_encode(cs.drop_first());
    }
}

/// The UTF-16 count of a byte prefix is at most one more than the prefix
/// length and at most the UTF-8 length of the whole text.
pub proof fn lemma_utf16_before_bound(cs: Seq<char>, off: int)
    ensures
        0 <= utf16_before(cs, off),
        utf16_before(cs, off) <= utf8_len(cs),
        off >= 0 ==> utf16_before(cs, off) <= off + 1,
    decreases cs.len(),
{
    lemma_utf8_len_nonneg(cs);
    if cs.len() > 0 && off > 0 {
        lemma_widths(cs[0]);
        lemma_utf16_before_bound(cs.drop_first(), off - utf8_width(cs[0]));
    }
}

pub proof fn lemma_byte_at_utf16_bound(cs: Seq<char>, t: int)
    ensures
        0 <= byte_at_utf16(cs, t) <= utf8_len(cs),
    decreases cs.len(),
{
    if cs.len() > 0 {
        lemma_widths(cs[0]);
        lemma_byte_at_utf16_bound(cs.drop_first(), t - utf16_width(cs[0]));
    }
}

/// Byte offset of the `k`-th character of `cs`.
pub open spec fn char_offset(cs: Seq<char>, k: int) -> int {
    utf8_len(cs.take(k))
}

/// Going from a character's byte offset to UTF-16 and back lands on the
/// same byte offset.
pub proof fn lemma_byte_utf16_roundtrip(cs: Seq<char>, k: int)
    requires
        0 <= k <= cs.len(),
    ensures
        byte_at_utf16(cs, utf16_before(cs, utf8_len(cs.take(k)))) == utf8_len(cs.take(k)),
    decreases cs.len(),
{
    if k == 0 {
        assert(cs.take(0) =~= Seq::<char>::empty());
    } else {
        let t = cs.drop_first();
        assert(cs.take(k).drop_first() =~= t.take(k - 1));
        lemma_widths(cs[0]);
        lemma_byte_utf16_roundtrip(t, k - 1);
        lemma_utf8_len_nonneg(t.take(k - 1));
    }
}

/// Going from a character's UTF-16 offset to bytes and back lands on the
/// same UTF-16 offset.
pub proof fn lemma_utf16_byte_roundtrip(cs: Seq<char>, k: int)
    requires
        0 <= k <= cs.len(),
    ensures
        utf16_before(cs, byte_at_utf16(cs, utf16_len(cs.take(k)))) == utf16_len(cs.take(k)),
    decreases cs.len(),
{
    if k == 0 {
        assert(cs.take(0) =~= Seq::<char>::empty());
    } else {
        let t = cs.drop_first();
        assert(cs.take(k).drop_first() =~= t.take(k - 1));
        lemma_widths(cs[0]);
        lemma_utf16_byte_roundtrip(t, k - 1);
        lemma_utf16_len_nonneg(t.take(k - 1));
        lemma_byte_at_utf16_bound(t, utf16_len(t.take(k - 1)));
    }
}

/// The UTF-16 column of a byte offset in a line grows with the offset and
/// never exceeds the line's UTF-16 length: `byte_to_utf16` is monotone and
/// bounded.
pub proof fn law_utf16_column_monotone(cs: Seq<char>, a: int, b: int)
    requires
        a <= b,
    ensures
        0 <= utf16_before(cs, a) <= utf16_before(cs, b) <= utf16_len(cs),
    decreases cs.len(),
{
    lemma_utf16_len_nonneg(cs);
    if cs.len() > 0 && b > 0 {
        let t = cs.drop_first();
        let w = utf8_width(cs[0]);
        lemma_widths(cs[0]);
        law_utf16_column_monotone(t, b - w, b - w);
        if a > 0 {
            law_utf16_column_monotone(t, a - w, b - w);
        }
    }
}

/// On a line of the content, turning the byte offset of a character into
/// its UTF-16 column (as `byte_to_utf16` does) and back (as `utf16_to_byte`
/// does) gives the byte offset again.
pub proof fn law_line_column_roundtrip(content: Seq<u8>, line: nat, k: int)
    requires
        nth_line(content, line) is Some,
        0 <= k <= decode_utf8(content.subrange(nth_line(content, line).unwrap().0, nth_line(content, line).unwrap().1)).len(),
    ensures
        ({
            let cs = decode_utf8(content.subrange(nth_line(content, line).unwrap().0, nth_line(content, line).unwrap().1));
            byte_at_utf16(cs, utf16_before(cs, char_offset(cs, k))) == char_offset(cs, k)
        }),
{
    let cs = decode_utf8(content.subrange(nth_line(content, line).unwrap().0, nth_line(content, line).unwrap().1));
    lemma_byte_utf16_roundtrip(cs, k);
}

pub proof fn lemma_utf8_len_nonneg(cs: Seq<char>)
    ensures
        0 <= utf8_len(cs),
    decreases cs.len(),
{
    if cs.len() > 0 {
        lemma_widths(cs[0]);
        lemma_utf8_len_nonneg(cs.drop_first());
    }
}

pub proof fn lemma_utf16_len_nonneg(cs: Seq<char>)
    ensures
        0 <= utf16_len(cs),
    decreases cs.len(),
{
    if cs.len() > 0 {
        lemma_widths(cs[0]);
        lemma_utf16_len_nonneg(cs.drop_first());
    }
}

/// UTF-8 encoding distributes over concatenation.
pub proof fn lemma_encode_concat(x: Seq<char>, y: Seq<char>)
    ensures
        encode_utf8(x + y) == encode_utf8(x) + encode_utf8(y),
    decreases x.len(),
{
    if x.len() == 0 {
        assert(x + y =~= y);
        assert(encode_utf8(x) =~= Seq::<u8>::empty());
        assert(encode_utf8(x) + encode_utf8(y) =~= encode_utf8(y));
    } else {
        assert((x + y).drop_first() =~= x.drop_first() + y);
        assert((x + y)[0] == x[0]);
        lemma_encode_concat(x.drop_first(), y);
        assert(encode_utf8(x + y) =~= encode_utf8(x) + encode_utf8(y));
    }
}

/// The byte offset of character `k` is the length of the encoding of the
/// first `k` characters.
pub proof fn lemma_char_offset_encode(cs: Seq<char>, k: int)
    requires
        0 <= k <= cs.len(),
    ensures
        char_offset(cs, k) == encode_utf8(cs.take(k)).len(),
        encode_utf8(cs) == encode_utf8(cs.take(k)) + encode_utf8(cs.skip(k)),
{
    lemma_utf8_len_encode(cs.take(k));
    assert(cs =~= cs.take(k) + cs.skip(k));
    lemma_encode_concat(cs.take(k), cs.skip(k));
}

/// One more character adds its width to the byte offset.
pub proof fn lemma_char_offset_step(cs: Seq<char>, k: int)
    requires
        0 <= k < cs.len(),
    ensures
        char_offset(cs, k + 1) == char_offset(cs, k) + utf8_width(cs[k]),
{
    lemma_char_offset_encode(cs, k);
    lemma_char_offset_encode(cs, k + 1);
    assert(cs.take(k + 1) =~= cs.take(k) + seq![cs[k]]);
    lemma_encode_concat(cs.take(k), seq![cs[k]]);
    assert(seq![cs[k]].drop_first() =~= Seq::<char>::empty());
    assert(encode_utf8(Seq::<char>::empty()) =~= Seq::<u8>::empty());
    assert(encode_utf8(seq![cs[k]]) =~= encode_scalar(cs[k] as u32));
}

/// Byte offsets grow with character indices.
pub proof fn lemma_char_offset_mono(cs: Seq<char>, a: int, z: int)
    requires
        0 <= a <= z <= cs.len(),
    ensures
        char_offset(cs, a) <= char_offset(cs, z),
    decreases z - a,
{
    if a < z {
        lemma_char_offset_step(cs, z - 1);
        lemma_widths(cs[z - 1]);
        lemma_char_offset_mono(cs, a, z - 1);
    }
}

/// The byte offset of a character starts a character of the encoding.
pub proof fn lemma_char_offset_start(cs: Seq<char>, k: int)
    requires
        0 <= k <= cs.len(),
    ensures
        crate::text::char_start(encode_utf8(cs), char_offset(cs, k)),
        0 <= char_offset(cs, k) <= encode_utf8(cs).len(),
{
    lemma_char_offset_encode(cs, k);
    if k < cs.len() {
        let rest = cs.skip(k);
        vstd::utf8::encode_utf8_first_scalar(rest);
        assert(encode_utf8(cs)[char_offset(cs, k)] == encode_utf8(rest)[0]);
    }
}

/// The bytes between two character offsets encode the characters between.
pub proof fn lemma_char_range_encode(cs: Seq<char>, a: int, z: int)
    requires
        0 <= a <= z <= cs.len(),
    ensures
        encode_utf8(cs).subrange(char_offset(cs, a), char_offset(cs, z)) == encode_utf8(
            cs.subrange(a, z),
        ),
{
    let x = cs.take(a);
    let m = cs.subrange(a, z);
    let y = cs.skip(z);
    assert(cs =~= x + m + y);
    assert(cs.take(z) =~= x + m);
    lemma_encode_concat(x, m);
    lemma_encode_concat(x + m, y);
    lemma_char_offset_encode(cs, a);
    lemma_char_offset_encode(cs, z);
    assert(encode_utf8(cs).subrange(char_offset(cs, a), char_offset(cs, z)) =~= encode_utf8(m));
}

/// `char::len_utf8`.
pub fn utf8_width_exec(c: char) -> (r: usize)
    ensures
        r == utf8_width(c),
{
    let v = c as u32;
    if v < 0x80 {
        1
    } else if v < 0x800 {
        2
    } else if v < 0x10000 {
        3
    } else {
        4
    }
}

/// `char::len_utf16`.
pub fn utf16_width_exec(c: char) -> (r: u32)
    ensures
        r == utf16_width(c),
{
    let v = c as u32;
    if v >= 0x10000 {
        2
    } else {
        1
    }
}

/// A zero-width range at a single position.
pub fn zero_range(pos: Position) -> (r: Range)
    ensures
        r.start == pos,
        r.end == pos,
{
    Range { start: pos, end: pos }
}

/// `x - 1`, or 0 for 0.
pub open spec fn pred_sat(x: int) -> int {
    if x > 0 {
        x - 1
    } else {
        0
    }
}

/// Convert a 1-based (line, column) pair to a 0-based LSP position, with
/// saturating subtraction so that (0, 0) maps to (0, 0).
pub fn raw_to_lsp(line: usize, column: usize) -> (r: Position)
    ensures
        r.line == pred_sat(line as int) as u32,
        r.character == pred_sat(column as int) as u32,
{
    Position { line: line.saturating_sub(1) as u32, character: column.saturating_sub(1) as u32 }
}

/// Convert a [`SourcePosition`] to a 0-based LSP position, taking the byte
/// column as the character offset.
pub fn source_to_lsp(sp: &SourcePosition) -> (r: Position)
    ensures
        r.line == pred_sat(sp.line as int) as u32,
        r.character == pred_sat(sp.column as int) as u32,
{
    raw_to_lsp(sp.line, sp.column)
}

/// Start of the `n`-th piece of `content.split('\n')`: just after the
/// `n`-th line feed, or `None` when the content has fewer line feeds.
pub open spec fn segment_start(b: Seq<u8>, n: nat) -> Option<int>
    decreases n,
{
    if n == 0 {
        Some(0)
    } else {
        match segment_start(b, (n - 1) as nat) {
            Some(s) => if next_nl(b, s) < b.len() {
                Some(next_nl(b, s) + 1)
            } else {
                None
            },
            None => None,
        }
    }
}

/// The content has the source line of `sp`, so that slicing it at the
/// line's start is in bounds.
pub open spec fn utf16_position_ok(sp: SourcePosition, b: Seq<u8>) -> bool {
    segment_start(b, pred_sat(sp.line as int) as nat) is Some
}

/// The LSP position of `sp` in the content `b`: the 0-based line, and the
/// UTF-16 count of the characters from the start of the line that begin
/// before the 0-based byte column.
pub open spec fn utf16_position(sp: SourcePosition, b: Seq<u8>) -> Position {
    let s = segment_start(b, pred_sat(sp.line as int) as nat).unwrap();
    Position {
        line: pred_sat(sp.line as int) as u32,
        character: utf16_before(
            decode_utf8(b.subrange(s, b.len() as int)),
            pred_sat(sp.column as int) as u32 as int,
        ) as u32,
    }
}

pub proof fn lemma_segment_start(b: Seq<u8>, n: nat)
    ensures
        segment_start(b, n) matches Some(s) ==> 0 <= s <= b.len(),
        vstd::utf8::valid_utf8(b) ==> (segment_start(b, n) matches Some(s) ==> char_start(b, s)),
        forall|m: nat| m <= n && segment_start(b, n) is Some ==> #[trigger] segment_start(b, m) is Some,
    decreases n,
{
    if n > 0 {
        lemma_segment_start(b, (n - 1) as nat);
        if let Some(s) = segment_start(b, (n - 1) as nat) {
            lemma_next_nl_bounds(b, s);
            if next_nl(b, s) < b.len() && vstd::utf8::valid_utf8(b) {
                lemma_after_ascii(b, next_nl(b, s));
            }
        }
    }
}

/// Convert a source position to an LSP position, computing the UTF-16
/// character offset from the byte column within `content`.
pub fn source_to_lsp_utf16(sp: &SourcePosition, content: &str) -> (r: Position)
    requires
        utf16_position_ok(*sp, content.spec_bytes()),
        content.spec_bytes().len() <= u32::MAX,
    ensures
        r == utf16_position(*sp, content.spec_bytes()),
{
    let b = content.as_bytes();
    let line_idx: usize = if sp.line > 0 {
        sp.line - 1
    } else {
        0
    };
    let col: usize = if sp.column > 0 {
        sp.column - 1
    } else {
        0
    };
    proof {
        lemma_segment_start(b@, line_idx as nat);
    }
    let mut s: usize = 0;
    let mut k: usize = 0;
    while k < line_idx
        invariant
            0 <= k <= line_idx,
            b@ == content.spec_bytes(),
            segment_start(b@, k as nat) == Some(s as int),
            segment_start(b@, line_idx as nat) is Some,
            forall|m: nat| m <= line_idx ==> #[trigger] segment_start(b@, m) is Some,
            s <= b@.len(),
        decreases line_idx - k,
    {
        let mut e = s;
        while e < b.len() && b[e] != 10
            invariant
                s <= e <= b@.len(),
                next_nl(b@, s as int) == next_nl(b@, e as int),
            decreases b@.len() - e,
        {
            e = e + 1;
        }
        proof {
            lemma_next_nl_bounds(b@, e as int);
            assert(segment_start(b@, (k + 1) as nat) is Some);
        }
        s = e + 1;
        k = k + 1;
    }
    proof {
        assert(vstd::utf8::valid_utf8(b@));
        lemma_segment_start(b@, line_idx as nat);
    }
    let rest = slice_str(content, s, b.len());
    proof {
        assert(rest@ == decode_utf8(b@.subrange(s as int, b@.len() as int)));
        lemma_utf16_before_bound(rest@, col as u32 as int);
        lemma_utf8_len_encode(rest@);
    }
    let character = byte_to_utf16(rest, col as u32);
    Position { line: line_idx as u32, character }
}

/// Convert a byte offset within a line to a UTF-16 character offset.
pub fn byte_to_utf16(line_str: &str, byte_offset: u32) -> (r: u32)
    requires
        utf16_before(line_str@, byte_offset as int) <= u32::MAX,
    ensures
        r == utf16_before(line_str@, byte_offset as int),
{
    let cs = chars_of(line_str);
    let mut k: usize = 0;
    let mut pos: usize = 0;
    let mut acc: u32 = 0;
    proof {
        assert(cs@.skip(0) =~= cs@);
    }
    while k < cs.len()
        invariant
            cs@ == line_str@,
            0 <= k <= cs@.len(),
            utf16_before(line_str@, byte_offset as int) == acc + utf16_before(
                cs@.skip(k as int),
                byte_offset - pos,
            ),
            utf16_before(line_str@, byte_offset as int) <= u32::MAX,
            pos <= byte_offset || k == cs@.len(),
        decreases cs@.len() - k,
    {
        let c = cs[k];
        proof {
            assert(cs@.skip(k as int)[0] == c);
            assert(cs@.skip(k as int).drop_first() =~= cs@.skip(k + 1));
            lemma_utf16_before_bound(cs@.skip(k + 1), byte_offset - pos - utf8_width(c));
        }
        if pos >= byte_offset as usize {
            return acc;
        }
        let w8 = utf8_width_exec(c);
        acc = acc + utf16_width_exec(c);
        if w8 > byte_offset as usize - pos {
            proof {
                lemma_utf16_before_bound(cs@.skip(k + 1), byte_offset - pos - utf8_width(c));
            }
            return acc;
        }
        pos = pos + w8;
        k = k + 1;
    }
    proof {
        assert(cs@.skip(k as int).len() == 0);
    }
    acc
}

/// Convert a UTF-16 character offset to a byte offset within a line.
pub fn utf16_to_byte_offset(line_str: &str, utf16_offset: u32) -> (r: usize)
    ensures
        r == byte_at_utf16(line_str@, utf16_offset as int),
{
    let total = line_str.as_bytes().len();
    let cs = chars_of(line_str);
    let mut k: usize = 0;
    let mut count: u64 = 0;
    let mut pos: usize = 0;
    proof {
        lemma_utf8_len_encode(line_str@);
        assert(cs@.skip(0) =~= cs@);
    }
    while k < cs.len()
        invariant
            cs@ == line_str@,
            total == utf8_len(line_str@),
            0 <= k <= cs@.len(),
            byte_at_utf16(line_str@, utf16_offset as int) == pos + byte_at_utf16(
                cs@.skip(k as int),
                utf16_offset - count,
            ),
            pos + utf8_len(cs@.skip(k as int)) == total,
            count <= pos,
        decreases cs@.len() - k,
    {
        let c = cs[k];
        proof {
            assert(cs@.skip(k as int)[0] == c);
            assert(cs@.skip(k as int).drop_first() =~= cs@.skip(k + 1));
            lemma_widths(c);
            lemma_utf8_len_nonneg(cs@.skip(k + 1));
        }
        if count >= utf16_offset as u64 {
            return pos;
        }
        pos = pos + utf8_width_exec(c);
        count = count + utf16_width_exec(c) as u64;
        k = k + 1;
    }
    proof {
        assert(cs@.skip(k as int).len() == 0);
    }
    pos
}

/// Convert a UTF-16 `character` offset to a byte offset, given the full
/// document content and a 0-based line number.  Falls back to the original
/// offset when the line does not exist.
pub fn utf16_to_byte(content: &str, line: u32, utf16_char: u32) -> (r: u32)
    ensures
        match nth_line(content.spec_bytes(), line as nat) {
            Some((s, e)) => r == byte_at_utf16(
                decode_utf8(content.spec_bytes().subrange(s, e)),
                utf16_char as int,
            ) as u32,
            None => r == utf16_char,
        },
{
    let b = content.as_bytes();
    match nth_line_exec(b, line as usize) {
        None => utf16_char,
        Some((s, e)) => {
            proof {
                assert(vstd::utf8::valid_utf8(b@));
                lemma_nth_line(b@, line as nat);
            }
            let line_str = slice_str(content, s, e);
            utf16_to_byte_offset(line_str, utf16_char) as u32
        },
    }
}

/// Convert byte offsets within a line to an LSP range with UTF-16 columns.
pub fn byte_range_to_lsp(line_str: &str, line: u32, byte_start: usize, byte_end: usize) -> (r:
    Range)
    requires
        utf16_before(line_str@, byte_start as u32 as int) <= u32::MAX,
        utf16_before(line_str@, byte_end as u32 as int) <= u32::MAX,
    ensures
        r.start.line == line,
        r.end.line == line,
        r.start.character == utf16_before(line_str@, byte_start as u32 as int),
        r.end.character == utf16_before(line_str@, byte_end as u32 as int),
{
    let start_char = byte_to_utf16(line_str, byte_start as u32);
    let end_char = byte_to_utf16(line_str, byte_end as u32);
    Range {
        start: Position { line, character: start_char },
        end: Position { line, character: end_char },
    }
}

} // verus!
