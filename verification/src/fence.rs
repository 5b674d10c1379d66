//! Detection of `supersigil-xml` fenced code blocks with a line-by-line
//! scan (no full Markdown parse).
//!
//! A line is inside a fence when it lies strictly between an opening
//! delimiter (a run of at least three backticks or tildes) and its closing
//! delimiter (the same character, at least as many, nothing after it).
//! HTML comments outside fences are skipped, so that commented-out fence
//! examples do not confuse the scanner.

use vstd::prelude::*;
use vstd::string::StringSliceAdditionalSpecFns;
use crate::text::{
    find_exec, find_from, line_at_exec, line_start, lemma_line_start_none_after,
    lemma_next_nl_bounds, matches_at, matches_at_exec, nth_line, skip_ws, skip_ws_back,
    skip_ws_back_exec, skip_ws_exec,
};
use crate::tokens::{
    comment_close, comment_close_spec, comment_open, comment_open_spec, supersigil_xml,
    supersigil_xml_spec,
};

verus! {

/// The scanner's state between lines: the open fence, if any, as
/// (delimiter byte, delimiter run length, is it a `supersigil-xml` fence),
/// and whether an HTML comment is open.
#[derive(Clone, Copy)]
pub struct FenceScan {
    pub fence: Option<(u8, usize, bool)>,
    pub in_comment: bool,
}

/// The state before the first line.
pub open spec fn scan_init() -> FenceScan {
    FenceScan { fence: None, in_comment: false }
}

/// Number of consecutive bytes equal to `c` starting at `i`, before `hi`.
pub open spec fn run_len(b: Seq<u8>, i: int, hi: int, c: u8) -> int
    decreases hi - i,
{
    if 0 <= i < hi && hi <= b.len() && b[i] == c {
        1 + run_len(b, i + 1, hi, c)
    } else {
        0
    }
}

/// `n` occurs at `i` and ends at or before `hi`.
pub open spec fn starts_at(b: Seq<u8>, i: int, hi: int, n: Seq<u8>) -> bool {
    i + n.len() <= hi && matches_at(b, i, n)
}

/// The fence delimiter that a trimmed line starting at `t` opens with:
/// backticks take precedence over tildes; `(0, 0)` when neither run has
/// length at least three.
pub open spec fn fence_delim(b: Seq<u8>, t: int, e: int) -> (u8, int) {
    let bt = run_len(b, t, e, 96);
    let tl = run_len(b, t, e, 126);
    if bt >= 3 {
        (96u8, bt)
    } else if tl >= 3 {
        (126u8, tl)
    } else {
        (0u8, 0)
    }
}

/// The info string in `[a, e)`, trimmed, is `supersigil-xml`, possibly
/// followed by a space and more words.
pub open spec fn info_is_supersigil(b: Seq<u8>, a: int, e: int) -> bool {
    let p = skip_ws(b, a, e);
    let q = skip_ws_back(b, p, e);
    &&& starts_at(b, p, q, supersigil_xml_spec())
    &&& (q - p == supersigil_xml_spec().len() || b[p + supersigil_xml_spec().len()] == 32)
}

/// One step of the scanner on the line `[s, e)`: the next state, and
/// whether the line is content inside a `supersigil-xml` fence.
pub open spec fn fence_step(st: FenceScan, b: Seq<u8>, s: int, e: int) -> (FenceScan, bool) {
    let t = skip_ws(b, s, e);
    if st.fence is None && st.in_comment {
        (FenceScan { fence: None, in_comment: find_from(b, t, e, comment_close_spec()) is None }, false)
    } else if st.fence is None && starts_at(b, t, e, comment_open_spec()) {
        (
            FenceScan {
                fence: None,
                in_comment: find_from(b, t + 4, e, comment_close_spec()) is None,
            },
            false,
        )
    } else {
        let (fc, cnt) = fence_delim(b, t, e);
        if cnt >= 3 {
            let a = t + cnt;
            match st.fence {
                Some((oc, on, sup)) => {
                    if fc == oc && cnt >= on && skip_ws(b, a, e) == e {
                        (FenceScan { fence: None, in_comment: st.in_comment }, false)
                    } else {
                        (st, sup)
                    }
                },
                None => (
                    FenceScan {
                        fence: Some((fc, cnt as usize, info_is_supersigil(b, a, e))),
                        in_comment: st.in_comment,
                    },
                    false,
                ),
            }
        } else {
            match st.fence {
                Some((_, _, sup)) => (st, sup),
                None => (st, false),
            }
        }
    }
}

/// The scanner's state before line `k`.
pub open spec fn scan_before(b: Seq<u8>, k: nat) -> FenceScan
    decreases k,
{
    if k == 0 {
        scan_init()
    } else {
        let prev = scan_before(b, (k - 1) as nat);
        match nth_line(b, (k - 1) as nat) {
            Some((s, e)) => fence_step(prev, b, s, e).0,
            None => prev,
        }
    }
}

/// Line `line` exists and is content of a `supersigil-xml` fence.
pub open spec fn in_supersigil_fence(b: Seq<u8>, line: nat) -> bool {
    match nth_line(b, line) {
        Some((s, e)) => fence_step(scan_before(b, line), b, s, e).1,
        None => false,
    }
}

pub proof fn lemma_run_len_bounds(b: Seq<u8>, i: int, hi: int, c: u8)
    ensures
        0 <= run_len(b, i, hi, c),
        0 <= i <= hi <= b.len() ==> i + run_len(b, i, hi, c) <= hi,
        forall|k: int| i <= k < i + run_len(b, i, hi, c) ==> b[k] == c,
    decreases hi - i,
{
    if 0 <= i < hi && hi <= b.len() && b[i] == c {
        lemma_run_len_bounds(b, i + 1, hi, c);
    }
}

pub fn run_len_exec(b: &[u8], i: usize, hi: usize, c: u8) -> (r: usize)
    requires
        i <= hi <= b@.len(),
    ensures
        r == run_len(b@, i as int, hi as int, c),
        i + r <= hi,
{
    let mut k = i;
    while k < hi && b[k] == c
        invariant
            i <= k <= hi <= b@.len(),
            run_len(b@, i as int, hi as int, c) == (k - i) + run_len(b@, k as int, hi as int, c),
        decreases hi - k,
    {
        k = k + 1;
    }
    k - i
}

pub fn starts_at_exec(b: &[u8], i: usize, hi: usize, n: &[u8]) -> (r: bool)
    requires
        i <= hi <= b@.len(),
    ensures
        r == starts_at(b@, i as int, hi as int, n@),
{
    n.len() <= hi - i && matches_at_exec(b, i, n)
}

fn info_is_supersigil_exec(b: &[u8], a: usize, e: usize) -> (r: bool)
    requires
        a <= e <= b@.len(),
    ensures
        r == info_is_supersigil(b@, a as int, e as int),
{
    let p = skip_ws_exec(b, a, e);
    let q = skip_ws_back_exec(b, p, e);
    let sx = supersigil_xml();
    if !starts_at_exec(b, p, q, sx.as_slice()) {
        return false;
    }
    q - p == 14 || b[p + 14] == 32
}

/// The exec counterpart of [`fence_step`].
pub fn fence_step_exec(st: FenceScan, b: &[u8], s: usize, e: usize) -> (r: (FenceScan, bool))
    requires
        s <= e <= b@.len(),
    ensures
        r == fence_step(st, b@, s as int, e as int),
{
    let t = skip_ws_exec(b, s, e);
    let close = comment_close();
    let open = comment_open();
    if st.fence.is_none() && st.in_comment {
        let found = find_exec(b, t, e, close.as_slice());
        return (FenceScan { fence: None, in_comment: found.is_none() }, false);
    }
    if st.fence.is_none() && starts_at_exec(b, t, e, open.as_slice()) {
        let found = find_exec(b, t + 4, e, close.as_slice());
        return (FenceScan { fence: None, in_comment: found.is_none() }, false);
    }
    let bt = run_len_exec(b, t, e, 96);
    let tl = run_len_exec(b, t, e, 126);
    let (fc, cnt): (u8, usize) = if bt >= 3 {
        (96u8, bt)
    } else if tl >= 3 {
        (126u8, tl)
    } else {
        (0u8, 0usize)
    };
    if cnt >= 3 {
        let a = t + cnt;
        match st.fence {
            Some((oc, on, sup)) => {
                if fc == oc && cnt >= on && skip_ws_exec(b, a, e) == e {
                    (FenceScan { fence: None, in_comment: st.in_comment }, false)
                } else {
                    (st, sup)
                }
            },
            None => {
                let sup = info_is_supersigil_exec(b, a, e);
                (FenceScan { fence: Some((fc, cnt, sup)), in_comment: st.in_comment }, false)
            },
        }
    } else {
        match st.fence {
            Some((_, _, sup)) => (st, sup),
            None => (st, false),
        }
    }
}

/// Returns `true` if the given 0-based line is inside a `supersigil-xml`
/// fenced code block in `content`.  The delimiter lines themselves are not
/// inside.
pub fn is_in_supersigil_fence(content: &str, line: u32) -> (r: bool)
    ensures
        r == in_supersigil_fence(content.spec_bytes(), line as nat),
{
    let b = content.as_bytes();
    if b.len() == 0 {
        proof {
            lemma_line_start_none_after(b@, 0, line as nat);
        }
        return false;
    }
    let target = line as usize;
    let mut st = FenceScan { fence: None, in_comment: false };
    let mut s: usize = 0;
    let mut i: usize = 0;
    loop
        invariant
            b@ == content.spec_bytes(),
            target == line as usize,
            0 <= i <= target,
            s < b@.len(),
            line_start(b@, i as nat) == Some(s as int),
            st == scan_before(b@, i as nat),
        decreases target - i,
    {
        let (e, next) = line_at_exec(b, s);
        let (st2, inside) = fence_step_exec(st, b, s, e);
        if i == target {
            return inside;
        }
        match next {
            Some(t) => {
                s = t;
            },
            None => {
                proof {
                    lemma_line_start_none_after(b@, (i + 1) as nat, line as nat);
                }
                return false;
            },
        }
        st = st2;
        i = i + 1;
    }
}

/// Which lines of `content` are inside a `supersigil-xml` fence: one entry
/// per line, computed in a single pass with the same state machine as
/// [`is_in_supersigil_fence`].
pub fn fence_mask(content: &str) -> (r: Vec<bool>)
    ensures
        forall|i: int| 0 <= i < r@.len() ==> #[trigger] line_start(content.spec_bytes(), i as nat) is Some,
        line_start(content.spec_bytes(), r@.len()) is None,
        forall|i: int| 0 <= i < r@.len() ==> #[trigger] r@[i] == in_supersigil_fence(
            content.spec_bytes(),
            i as nat,
        ),
{
    let b = content.as_bytes();
    let mut mask: Vec<bool> = Vec::new();
    if b.len() == 0 {
        return mask;
    }
    let mut st = FenceScan { fence: None, in_comment: false };
    let mut s: usize = 0;
    loop
        invariant
            b@ == content.spec_bytes(),
            s < b@.len(),
            line_start(b@, mask@.len()) == Some(s as int),
            st == scan_before(b@, mask@.len()),
            forall|i: int| 0 <= i < mask@.len() ==> #[trigger] line_start(b@, i as nat) is Some,
            forall|i: int| 0 <= i < mask@.len() ==> #[trigger] mask@[i] == in_supersigil_fence(
                b@,
                i as nat,
            ),
        decreases b@.len() - s,
    {
        let (e, next) = line_at_exec(b, s);
        let (st2, inside) = fence_step_exec(st, b, s, e);
        mask.push(inside);
        match next {
            Some(t) => {
                proof {
                    lemma_next_nl_bounds(b@, s as int);
                }
                s = t;
            },
            None => {
                return mask;
            },
        }
        st = st2;
    }
}

/// A line that opens or closes a fence is not inside a `supersigil-xml`
/// fence: the delimiter lines themselves are outside.
pub proof fn law_fence_delimiters_are_outside(b: Seq<u8>, k: nat)
    requires
        nth_line(b, k) matches Some((s, e)) && (fence_step(scan_before(b, k), b, s, e).0.fence is None)
            != (scan_before(b, k).fence is None),
    ensures
        !in_supersigil_fence(b, k),
{
}

} // verus!
