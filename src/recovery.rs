//! The recovery driver: calls the scanner again and again, each time from
//! the end of the previous candidate, until it finds nothing more.
use vstd::prelude::*;
use crate::scanner::{find_jpeg, lemma_scan_candidate, scan, span_of, Jpeg};

verus! {

/// The candidates that the driver yields from cursor `from` on, in order.
pub open spec fn drive(s: Seq<u8>, from: int, min: int, max: int) -> Seq<(int, int)>
    decreases s.len() - from via drive_decreases
{
    match scan(s, from, min, max) {
        None => Seq::empty(),
        Some((a, e)) => seq![(a, e)].add(drive(s, e, min, max)),
    }
}

#[via_fn]
proof fn drive_decreases(s: Seq<u8>, from: int, min: int, max: int) {
    lemma_scan_candidate(s, from, min, max);
}

/// The ranges of a list of candidates.
pub open spec fn spans(v: Seq<Jpeg>) -> Seq<(int, int)> {
    v.map_values(|j: Jpeg| j@)
}

/// A recovery session over one source: the cursor and the size bounds.
pub struct Recovery {
    /// Where the next search begins.
    pub cursor: usize,
    /// The smallest size of a candidate, in bytes.
    pub min_size: usize,
    /// The largest size of a candidate, in bytes.
    pub max_size: usize,
}

impl Recovery {
    /// The candidates that this session has yet to yield from `s`.
    pub open spec fn remaining(&self, s: Seq<u8>) -> Seq<(int, int)> {
        drive(s, self.cursor as int, self.min_size as int, self.max_size as int)
    }

    /// Starts a session at the beginning of the source.
    pub fn new(min_size: usize, max_size: usize) -> (r: Recovery)
        ensures
            r.cursor == 0,
            r.min_size == min_size,
            r.max_size == max_size,
    {
        Recovery { cursor: 0, min_size, max_size }
    }

    /// Yields the next candidate and moves the cursor to its end; at the end
    /// of the source yields `None` and leaves the cursor where it was.
    pub fn next_jpeg(&mut self, source: &[u8]) -> (r: Option<Jpeg>)
        ensures
            span_of(r) == scan(
                source@,
                old(self).cursor as int,
                old(self).min_size as int,
                old(self).max_size as int,
            ),
            final(self).min_size == old(self).min_size,
            final(self).max_size == old(self).max_size,
            match r {
                Some(j) => final(self).cursor == j.eoi && old(self).cursor < j.eoi
                    && j.eoi <= source@.len()
                    && old(self).remaining(source@) == seq![j@].add(final(self).remaining(source@)),
                None => final(self).cursor == old(self).cursor
                    && old(self).remaining(source@).len() == 0,
            },
    {
        let r = find_jpeg(source, self.cursor, self.min_size, self.max_size);
        if let Some(j) = r {
            self.cursor = j.eoi;
        }
        r
    }
}

/// Runs a whole recovery session over `source` and lists every candidate,
/// in the order the driver yields them.
pub fn recover_all(source: &[u8], min_size: usize, max_size: usize) -> (r: Vec<Jpeg>)
    ensures
        spans(r@) == drive(source@, 0, min_size as int, max_size as int),
{
    let mut session = Recovery::new(min_size, max_size);
    let mut found: Vec<Jpeg> = Vec::new();
    loop
        invariant
            session.min_size == min_size,
            session.max_size == max_size,
            session.cursor <= source@.len(),
            drive(source@, 0, min_size as int, max_size as int)
                == spans(found@).add(session.remaining(source@)),
        decreases source@.len() - session.cursor,
    {
        let ghost before = found@;
        match session.next_jpeg(source) {
            None => {
                assert(spans(found@).add(session.remaining(source@)) =~= spans(found@));
                return found;
            },
            Some(j) => {
                found.push(j);
                assert(spans(found@) =~= spans(before).push(j@));
                assert(spans(found@).add(session.remaining(source@))
                    =~= spans(before).add(seq![j@].add(session.remaining(source@))));
            },
        }
    }
}

} // verus!
