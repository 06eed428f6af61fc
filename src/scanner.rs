//! The boundary scanner: from a cursor, finds the next vendor-tagged start
//! marker, follows nested start and end markers to the closing one, and
//! retries further on when the candidate breaks the size bounds.
use vstd::prelude::*;
use crate::marker::{is_anchor, is_eoi, is_soi, anchor_at, eoi_at, soi_at, LOOKAHEAD};

verus! {

/// How an extent search from an anchor ends, over mathematical positions.
pub enum ExtentEnd {
    /// The closing end marker stands at this position.
    Closed(int),
    /// The search went past the largest size without a closing marker.
    Oversized,
    /// The source ended without a closing marker.
    Exhausted,
}

/// How an extent search from an anchor ends.
#[derive(Clone, Copy, Debug, PartialEq, Eq)]
pub enum Extent {
    /// The closing end marker stands at this position.
    Closed(usize),
    /// The search went past the largest size without a closing marker.
    Oversized,
    /// The source ended without a closing marker.
    Exhausted,
}

impl View for Extent {
    type V = ExtentEnd;

    open spec fn view(&self) -> ExtentEnd {
        match self {
            Extent::Closed(c) => ExtentEnd::Closed(*c as int),
            Extent::Oversized => ExtentEnd::Oversized,
            Extent::Exhausted => ExtentEnd::Exhausted,
        }
    }
}

/// A recovered image: the byte range `[soi, eoi)` of the source.
#[derive(Clone, Copy, Debug, PartialEq, Eq, Structural)]
pub struct Jpeg {
    /// Position of the start marker.
    pub soi: usize,
    /// One past the last byte of the end marker.
    pub eoi: usize,
}

impl View for Jpeg {
    type V = (int, int);

    open spec fn view(&self) -> (int, int) {
        (self.soi as int, self.eoi as int)
    }
}

/// The range of a scan result, if any.
pub open spec fn span_of(r: Option<Jpeg>) -> Option<(int, int)> {
    match r {
        Some(j) => Some(j@),
        None => None,
    }
}

/// The first anchor at or after `from`.
pub open spec fn first_anchor(s: Seq<u8>, from: int) -> Option<int>
    decreases s.len() - from,
{
    if from + LOOKAHEAD >= s.len() {
        None
    } else if is_anchor(s, from) {
        Some(from)
    } else {
        first_anchor(s, from + 1)
    }
}

/// The extent search from anchor `a`, at position `x` with nesting counter
/// `depth`: an end marker lowers the counter and closes the candidate once
/// it is at most zero; a start marker raises it. The marker pair at `x` is
/// read only while the candidate `[a, x + 2)` stays within `max` bytes.
pub open spec fn extent(s: Seq<u8>, a: int, x: int, depth: int, max: int) -> ExtentEnd
    decreases s.len() - x,
{
    if x + 2 > s.len() {
        ExtentEnd::Exhausted
    } else if x + 2 - a > max {
        ExtentEnd::Oversized
    } else if is_eoi(s, x) {
        if depth - 1 <= 0 {
            ExtentEnd::Closed(x)
        } else {
            extent(s, a, x + 1, depth - 1, max)
        }
    } else if is_soi(s, x) {
        extent(s, a, x + 1, depth + 1, max)
    } else {
        extent(s, a, x + 1, depth, max)
    }
}

/// The next candidate at or after `from`, as `(start, end)`: the extent
/// search runs from the first anchor; an undersized or oversized candidate
/// restarts the anchor search `LOOKAHEAD` bytes after its anchor; a source
/// that ends inside a candidate leaves nothing more to find.
pub open spec fn scan(s: Seq<u8>, from: int, min: int, max: int) -> Option<(int, int)>
    decreases s.len() - from via scan_decreases
{
    match first_anchor(s, from) {
        None => None,
        Some(a) => match extent(s, a, a, 0, max) {
            ExtentEnd::Closed(c) => if c + 2 - a < min {
                scan(s, a + LOOKAHEAD, min, max)
            } else {
                Some((a, c + 2))
            },
            ExtentEnd::Oversized => scan(s, a + LOOKAHEAD, min, max),
            ExtentEnd::Exhausted => None,
        },
    }
}

#[via_fn]
proof fn scan_decreases(s: Seq<u8>, from: int, min: int, max: int) {
    lemma_first_anchor(s, from);
}

/// `first_anchor` finds the least anchor at or after `from`.
pub proof fn lemma_first_anchor(s: Seq<u8>, from: int)
    ensures
        match first_anchor(s, from) {
            Some(a) => from <= a && is_anchor(s, a)
                && forall|y: int| from <= y < a ==> !is_anchor(s, y),
            None => forall|y: int| from <= y ==> !is_anchor(s, y),
        },
    decreases s.len() - from,
{
    if from + LOOKAHEAD >= s.len() {
    } else if is_anchor(s, from) {
    } else {
        lemma_first_anchor(s, from + 1);
    }
}

/// A closing marker found by the extent search lies at or after `x`, is an
/// end marker inside the source, and leaves the candidate within `max`.
pub proof fn lemma_extent_closed(s: Seq<u8>, a: int, x: int, depth: int, max: int)
    ensures
        extent(s, a, x, depth, max) matches ExtentEnd::Closed(c) ==> x <= c && is_eoi(s, c)
            && c + 2 - a <= max,
    decreases s.len() - x,
{
    if x + 2 > s.len() {
    } else if x + 2 - a > max {
    } else if is_eoi(s, x) {
        if depth - 1 > 0 {
            lemma_extent_closed(s, a, x + 1, depth - 1, max);
        }
    } else if is_soi(s, x) {
        lemma_extent_closed(s, a, x + 1, depth + 1, max);
    } else {
        lemma_extent_closed(s, a, x + 1, depth, max);
    }
}

/// Every candidate the scanner returns starts at an anchor at or after the
/// cursor, ends just past an end marker inside the source, and spans between
/// `min` and `max` bytes.
pub proof fn lemma_scan_candidate(s: Seq<u8>, from: int, min: int, max: int)
    ensures
        scan(s, from, min, max) matches Some((a, e)) ==> from <= a && is_anchor(s, a) && a < e
            && e <= s.len() && is_eoi(s, e - 2) && min <= e - a <= max,
    decreases s.len() - from,
{
    lemma_first_anchor(s, from);
    if let Some(a) = first_anchor(s, from) {
        lemma_extent_closed(s, a, a, 0, max);
        match extent(s, a, a, 0, max) {
            ExtentEnd::Closed(c) => {
                if c + 2 - a < min {
                    lemma_scan_candidate(s, a + LOOKAHEAD, min, max);
                }
            },
            ExtentEnd::Oversized => {
                lemma_scan_candidate(s, a + LOOKAHEAD, min, max);
            },
            ExtentEnd::Exhausted => {},
        }
    }
}

/// Finds the first anchor at or after `from`.
pub fn find_anchor(s: &[u8], from: usize) -> (r: Option<usize>)
    ensures
        match r {
            Some(a) => first_anchor(s@, from as int) == Some(a as int),
            None => first_anchor(s@, from as int) is None,
        },
{
    let n = s.len();
    if n <= LOOKAHEAD {
        return None;
    }
    let last = n - LOOKAHEAD;
    let mut x = from;
    while x < last
        invariant
            n == s@.len(),
            last + LOOKAHEAD == n,
            first_anchor(s@, from as int) == first_anchor(s@, x as int),
        decreases last - x,
    {
        if anchor_at(s, x) {
            return Some(x);
        }
        x = x + 1;
    }
    None
}

/// Runs the extent search from the anchor at `anchor`, tracking the
/// nesting counter, with candidates of at most `max_size` bytes.
pub fn scan_extent(s: &[u8], anchor: usize, max_size: usize) -> (r: Extent)
    ensures
        r@ == extent(s@, anchor as int, anchor as int, 0, max_size as int),
{
    let n = s.len();
    if anchor >= n {
        return Extent::Exhausted;
    }
    let mut x = anchor;
    let mut depth: usize = 0;
    loop
        invariant
            n == s@.len(),
            anchor <= x < n,
            depth <= x - anchor,
            extent(s@, anchor as int, anchor as int, 0, max_size as int)
                == extent(s@, anchor as int, x as int, depth as int, max_size as int),
        decreases n - x,
    {
        if n - x < 2 {
            return Extent::Exhausted;
        }
        if x + 2 - anchor > max_size {
            return Extent::Oversized;
        }
        if eoi_at(s, x) {
            if depth <= 1 {
                return Extent::Closed(x);
            }
            depth = depth - 1;
        } else if soi_at(s, x) {
            depth = depth + 1;
        }
        x = x + 1;
    }
}

/// Finds the next JPEG candidate at or after `offset` whose size lies
/// between `min_size` and `max_size`.
pub fn find_jpeg(source: &[u8], offset: usize, min_size: usize, max_size: usize) -> (r: Option<Jpeg>)
    ensures
        span_of(r) == scan(source@, offset as int, min_size as int, max_size as int),
        r matches Some(j) ==> offset <= j.soi < j.eoi <= source@.len() && is_anchor(source@, j.soi as int)
            && is_eoi(source@, j.eoi - 2) && min_size <= j.eoi - j.soi <= max_size,
{
    let n = source.len();
    if offset >= n {
        proof {
            lemma_first_anchor(source@, offset as int);
        }
        return None;
    }
    let mut soi = offset;
    loop
        invariant
            n == source@.len(),
            soi < n,
            scan(source@, offset as int, min_size as int, max_size as int)
                == scan(source@, soi as int, min_size as int, max_size as int),
        decreases n - soi,
    {
        proof {
            lemma_first_anchor(source@, soi as int);
        }
        match find_anchor(source, soi) {
            None => {
                return None;
            },
            Some(a) => {
                proof {
                    lemma_extent_closed(source@, a as int, a as int, 0, max_size as int);
                }
                match scan_extent(source, a, max_size) {
                    Extent::Closed(c) => {
                        if c + 2 - a < min_size {
                            soi = a + LOOKAHEAD;
                        } else {
                            proof {
                                lemma_scan_candidate(source@, offset as int, min_size as int, max_size as int);
                            }
                            return Some(Jpeg { soi: a, eoi: c + 2 });
                        }
                    },
                    Extent::Oversized => {
                        soi = a + LOOKAHEAD;
                    },
                    Extent::Exhausted => {
                        return None;
                    },
                }
            },
        }
    }
}

} // verus!
