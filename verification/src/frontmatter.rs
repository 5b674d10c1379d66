//! YAML frontmatter delimited by `---` lines at the top of a document.

use vstd::prelude::*;
use vstd::string::StringSliceAdditionalSpecFns;
use crate::text::{
    line_at_exec, line_end, line_start, lemma_line_start_bounds, lemma_line_start_none_after,
    lemma_next_nl_bounds, lemma_skip_ws_bounds, matches_at, matches_at_exec, next_line_start,
    nth_line, skip_ws, skip_ws_back, skip_ws_back_exec, skip_ws_exec,
};
use crate::tokens::{yaml_fence, yaml_fence_spec};

verus! {

/// The window `[s, e)`, trimmed, is exactly `---`.
pub open spec fn is_delim(b: Seq<u8>, s: int, e: int) -> bool {
    let p = skip_ws(b, s, e);
    let q = skip_ws_back(b, p, e);
    q - p == 3 && matches_at(b, p, yaml_fence_spec())
}

/// Line `n` exists and, trimmed, is `---`.
pub open spec fn is_delim_line(b: Seq<u8>, n: nat) -> bool {
    match nth_line(b, n) {
        Some((s, e)) => is_delim(b, s, e),
        None => false,
    }
}

/// The first `---` line at index `>= n`.
pub open spec fn delim_from(b: Seq<u8>, n: nat) -> Option<nat>
    decreases b.len() - n,
{
    if n >= b.len() {
        None
    } else if is_delim_line(b, n) {
        Some(n)
    } else {
        delim_from(b, n + 1)
    }
}

/// The frontmatter block: `(0, close)` when line 0 is `---` and a later
/// `---` line closes it at `close`.
pub open spec fn frontmatter_block(b: Seq<u8>) -> Option<(nat, nat)> {
    if is_delim_line(b, 0) {
        match delim_from(b, 1) {
            Some(d) => Some((0, d)),
            None => None,
        }
    } else {
        None
    }
}

pub fn is_delim_exec(b: &[u8], s: usize, e: usize) -> (r: bool)
    requires
        s <= e <= b@.len(),
    ensures
        r == is_delim(b@, s as int, e as int),
{
    let p = skip_ws_exec(b, s, e);
    let q = skip_ws_back_exec(b, p, e);
    let delim = yaml_fence();
    q - p == 3 && matches_at_exec(b, p, delim.as_slice())
}

/// A line index at which a line exists is below the byte length.
pub proof fn lemma_line_index_bound(b: Seq<u8>, n: nat)
    ensures
        line_start(b, n) matches Some(s) ==> n <= s,
    decreases n,
{
    lemma_line_start_bounds(b, n);
    if n > 0 {
        lemma_line_index_bound(b, (n - 1) as nat);
        if let Some(s) = line_start(b, (n - 1) as nat) {
            lemma_next_nl_bounds(b, s);
        }
    }
}

/// Scanning from line `n` (starting at `s`) finds `delim_from(b, n)`.
pub fn delim_from_exec(b: &[u8], n: usize, s: usize) -> (r: Option<usize>)
    requires
        s < b@.len(),
        line_start(b@, n as nat) == Some(s as int),
    ensures
        r matches Some(d) ==> delim_from(b@, n as nat) == Some(d as nat),
        r is None ==> delim_from(b@, n as nat) is None,
{
    let mut k = n;
    let mut st = s;
    proof {
        lemma_line_index_bound(b@, n as nat);
    }
    loop
        invariant
            st < b@.len(),
            k <= st,
            line_start(b@, k as nat) == Some(st as int),
            delim_from(b@, n as nat) == delim_from(b@, k as nat),
        decreases b@.len() - k,
    {
        let (e, next) = line_at_exec(b, st);
        if is_delim_exec(b, st, e) {
            return Some(k);
        }
        match next {
            Some(t) => {
                proof {
                    lemma_next_nl_bounds(b@, st as int);
                }
                st = t;
                k = k + 1;
            },
            None => {
                proof {
                    lemma_delim_from_none(b@, (k + 1) as nat);
                }
                return None;
            },
        }
    }
}

/// No line at or after `n` means no delimiter at or after `n`.
pub proof fn lemma_delim_from_none(b: Seq<u8>, n: nat)
    requires
        line_start(b, n) is None,
    ensures
        delim_from(b, n) is None,
    decreases b.len() - n,
{
    if n < b.len() {
        lemma_line_start_none_after(b, n, n + 1);
        lemma_delim_from_none(b, n + 1);
    }
}

/// [`frontmatter_block`], computed.
pub fn frontmatter_block_exec(content: &str) -> (r: Option<(usize, usize)>)
    ensures
        r matches Some((o, c)) ==> frontmatter_block(content.spec_bytes()) == Some(
            (o as nat, c as nat),
        ),
        r is None ==> frontmatter_block(content.spec_bytes()) is None,
{
    let b = content.as_bytes();
    if b.len() == 0 {
        return None;
    }
    let (e0, next) = line_at_exec(b, 0);
    if !is_delim_exec(b, 0, e0) {
        return None;
    }
    match next {
        None => {
            proof {
                lemma_delim_from_none(b@, 1);
            }
            None
        },
        Some(t) => match delim_from_exec(b, 1, t) {
            Some(d) => Some((0, d)),
            None => None,
        },
    }
}

} // verus!
