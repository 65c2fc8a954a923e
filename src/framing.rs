//! Where the header block of a request ends: at the first blank line after
//! the request line. Empty lines before the request line are skipped.
use vstd::prelude::*;

verus! {

pub open spec fn is_line_end(c: u8) -> bool {
    c == 0x0a || c == 0x0d
}

/// The first index at or after `i` that holds no CR or LF (or the length).
pub open spec fn skip_blank(x: Seq<u8>, i: nat) -> nat
    decreases x.len() - i,
{
    if i < x.len() && is_line_end(x[i as int]) {
        skip_blank(x, i + 1)
    } else {
        i
    }
}

/// Where a blank line that follows the line feed at `i` ends: after `\n\n`
/// or `\n\r\n`.
pub open spec fn blank_line_at(x: Seq<u8>, i: nat) -> Option<nat> {
    if i + 1 < x.len() && x[i as int] == 0x0a && x[i + 1int] == 0x0a {
        Some(i + 2)
    } else if i + 2 < x.len() && x[i as int] == 0x0a && x[i + 1int] == 0x0d && x[i + 2int] == 0x0a {
        Some(i + 3)
    } else {
        None
    }
}

/// The end of the first blank line that starts at or after `i`.
pub open spec fn blank_line_from(x: Seq<u8>, i: nat) -> Option<nat>
    decreases x.len() - i,
{
    if i >= x.len() {
        None
    } else {
        match blank_line_at(x, i) {
            Some(e) => Some(e),
            None => blank_line_from(x, i + 1),
        }
    }
}

/// The length of the header block at the start of `x`, once it is all there.
pub open spec fn block_end(x: Seq<u8>) -> Option<nat> {
    blank_line_from(x, skip_blank(x, 0))
}

proof fn lemma_skip_blank_bounds(x: Seq<u8>, i: nat)
    requires
        i <= x.len(),
    ensures
        i <= skip_blank(x, i) <= x.len(),
        forall|k: int| i <= k < skip_blank(x, i) ==> is_line_end(#[trigger] x[k]),
    decreases x.len() - i,
{
    if i < x.len() && is_line_end(x[i as int]) {
        lemma_skip_blank_bounds(x, i + 1);
    }
}

proof fn lemma_skip_blank_extend(x: Seq<u8>, y: Seq<u8>, i: nat)
    requires
        i <= x.len(),
        skip_blank(x, i) < x.len(),
    ensures
        skip_blank(x + y, i) == skip_blank(x, i),
    decreases x.len() - i,
{
    if i < x.len() && is_line_end(x[i as int]) {
        lemma_skip_blank_extend(x, y, i + 1);
    }
}

proof fn lemma_blank_line_from_extend(x: Seq<u8>, y: Seq<u8>, i: nat)
    requires
        blank_line_from(x, i) is Some,
    ensures
        blank_line_from(x + y, i) == blank_line_from(x, i),
        i + 2 <= blank_line_from(x, i)->0 <= x.len(),
    decreases x.len() - i,
{
    let z = x + y;
    if blank_line_at(x, i) is Some {
        assert(blank_line_at(z, i) == blank_line_at(x, i));
    } else {
        lemma_blank_line_from_extend(x, y, i + 1);
        assert(blank_line_at(z, i) is None);
    }
}

/// A header block, once complete, stays where it is as more bytes arrive.
pub proof fn lemma_block_end_extend(x: Seq<u8>, y: Seq<u8>)
    requires
        block_end(x) is Some,
    ensures
        block_end(x + y) == block_end(x),
        block_end(x)->0 <= x.len(),
{
    lemma_skip_blank_bounds(x, 0);
    lemma_blank_line_from_extend(x, y, skip_blank(x, 0));
    lemma_skip_blank_extend(x, y, 0);
}

/// Finds the end of the header block at the start of `x`.
pub fn find_block_end(x: &[u8]) -> (r: Option<usize>)
    ensures
        r matches Some(e) ==> block_end(x@) == Some(e as nat) && e <= x@.len(),
        r is None ==> block_end(x@) is None,
{
    let mut i: usize = 0;
    while i < x.len() && (x[i] == 0x0a || x[i] == 0x0d)
        invariant
            i <= x@.len(),
            skip_blank(x@, 0) == skip_blank(x@, i as nat),
        decreases x@.len() - i,
    {
        i = i + 1;
    }
    let ghost start = i as nat;
    while i < x.len()
        invariant
            i <= x@.len(),
            start == skip_blank(x@, 0),
            block_end(x@) == blank_line_from(x@, i as nat),
        decreases x@.len() - i,
    {
        if x[i] == 0x0a && i + 1 < x.len() {
            if x[i + 1] == 0x0a {
                return Some(i + 2);
            }
            if x[i + 1] == 0x0d && i + 2 < x.len() && x[i + 2] == 0x0a {
                return Some(i + 3);
            }
        }
        i = i + 1;
    }
    None
}

} // verus!
