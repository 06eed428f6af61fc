//! What holds of the scanner and the driver on whole families of sources.
use vstd::prelude::*;
use crate::marker::{is_anchor, is_eoi, is_soi, LOOKAHEAD};
use crate::scanner::{extent, first_anchor, lemma_first_anchor, lemma_scan_candidate, scan, ExtentEnd};
use crate::recovery::drive;

verus! {

/// The first anchor from `o` is `a` when `a` is an anchor and none precedes it.
proof fn lemma_first_anchor_is(s: Seq<u8>, o: int, a: int)
    requires
        o <= a,
        is_anchor(s, a),
        forall|y: int| o <= y < a ==> !is_anchor(s, y),
    ensures
        first_anchor(s, o) == Some(a),
{
    lemma_first_anchor(s, o);
}

/// No anchor at or after `o` leaves nothing to find.
proof fn lemma_nothing_after(s: Seq<u8>, o: int, min: int, max: int)
    requires
        forall|y: int| o <= y ==> !is_anchor(s, y),
    ensures
        scan(s, o, min, max) is None,
        drive(s, o, min, max) == Seq::<(int, int)>::empty(),
{
    lemma_first_anchor(s, o);
}

/// From inside a candidate at nesting depth one, with no marker before the
/// end marker at `c`, the extent search closes at `c` if the candidate fits
/// in `max` bytes, and goes past `max` otherwise.
proof fn lemma_plain_run(s: Seq<u8>, a: int, x: int, c: int, max: int)
    requires
        a < x <= c,
        is_eoi(s, c),
        forall|y: int| x <= y < c ==> !is_soi(s, y) && !is_eoi(s, y),
    ensures
        extent(s, a, x, 1, max) == (if c + 2 - a <= max {
            ExtentEnd::Closed(c)
        } else {
            ExtentEnd::Oversized
        }),
    decreases c - x,
{
    if x + 2 - a > max {
    } else if x < c {
        lemma_plain_run(s, a, x + 1, c, max);
    }
}

/// A well-formed image without nesting, first after `o`, is found whole.
proof fn lemma_clean_jpeg(s: Seq<u8>, o: int, a: int, c: int, min: int, max: int)
    requires
        o <= a,
        is_anchor(s, a),
        forall|y: int| o <= y < a ==> !is_anchor(s, y),
        a < c,
        is_eoi(s, c),
        forall|y: int| a < y < c ==> !is_soi(s, y) && !is_eoi(s, y),
        min <= c + 2 - a <= max,
    ensures
        scan(s, o, min, max) == Some((a, c + 2)),
{
    lemma_first_anchor_is(s, o, a);
    lemma_plain_run(s, a, a + 1, c, max);
}

/// A source holding exactly one well-formed image without nesting, anchored
/// at `a` and closed by the end marker at `c`, of a size within the bounds:
/// the scanner returns exactly its marker-delimited range, and a second call
/// from the end of that range finds nothing.
pub proof fn lemma_single_jpeg(s: Seq<u8>, o: int, a: int, c: int, min: int, max: int)
    requires
        o <= a,
        is_anchor(s, a),
        forall|y: int| o <= y < a ==> !is_anchor(s, y),
        a < c,
        is_eoi(s, c),
        forall|y: int| a < y < c ==> !is_soi(s, y) && !is_eoi(s, y),
        min <= c + 2 - a <= max,
        forall|y: int| c + 2 <= y ==> !is_anchor(s, y),
    ensures
        scan(s, o, min, max) == Some((a, c + 2)),
        scan(s, c + 2, min, max) is None,
{
    lemma_clean_jpeg(s, o, a, c, min, max);
    lemma_nothing_after(s, c + 2, min, max);
}

/// An anchor closed by an end marker too soon for the smallest size is
/// rejected: the scan goes on as if it started `LOOKAHEAD` bytes after the
/// anchor, and never returns a candidate that starts before that point.
pub proof fn lemma_undersized_skipped(s: Seq<u8>, o: int, a: int, c: int, min: int, max: int)
    requires
        o <= a,
        is_anchor(s, a),
        forall|y: int| o <= y < a ==> !is_anchor(s, y),
        a < c,
        is_eoi(s, c),
        forall|y: int| a < y < c ==> !is_soi(s, y) && !is_eoi(s, y),
        c + 2 - a < min,
    ensures
        scan(s, o, min, max) == scan(s, a + LOOKAHEAD, min, max),
        scan(s, o, min, max) matches Some((b, e)) ==> a + LOOKAHEAD <= b,
{
    lemma_first_anchor_is(s, o, a);
    if 2 <= max {
        lemma_plain_run(s, a, a + 1, c, max);
    }
    lemma_scan_candidate(s, a + LOOKAHEAD, min, max);
}

/// A source in which no start marker occurs yields nothing, from any cursor
/// and whatever its length.
pub proof fn lemma_no_start_marker(s: Seq<u8>, o: int, min: int, max: int)
    requires
        forall|y: int| !is_soi(s, y),
    ensures
        scan(s, o, min, max) is None,
        drive(s, o, min, max) == Seq::<(int, int)>::empty(),
{
    lemma_nothing_after(s, o, min, max);
}

/// Two well-formed images without nesting, one after the other and with no
/// other anchor: the driver yields both ranges, in order of their offsets,
/// the second search starting at the end of the first range.
pub proof fn lemma_two_jpegs(
    s: Seq<u8>,
    a1: int,
    c1: int,
    a2: int,
    c2: int,
    min: int,
    max: int,
)
    requires
        0 <= a1,
        is_anchor(s, a1),
        forall|y: int| 0 <= y < a1 ==> !is_anchor(s, y),
        a1 < c1,
        is_eoi(s, c1),
        forall|y: int| a1 < y < c1 ==> !is_soi(s, y) && !is_eoi(s, y),
        min <= c1 + 2 - a1 <= max,
        c1 + 2 <= a2,
        is_anchor(s, a2),
        forall|y: int| c1 + 2 <= y < a2 ==> !is_anchor(s, y),
        a2 < c2,
        is_eoi(s, c2),
        forall|y: int| a2 < y < c2 ==> !is_soi(s, y) && !is_eoi(s, y),
        min <= c2 + 2 - a2 <= max,
        forall|y: int| c2 + 2 <= y ==> !is_anchor(s, y),
    ensures
        scan(s, 0, min, max) == Some((a1, c1 + 2)),
        scan(s, c1 + 2, min, max) == Some((a2, c2 + 2)),
        drive(s, 0, min, max) == seq![(a1, c1 + 2), (a2, c2 + 2)],
{
    lemma_clean_jpeg(s, 0, a1, c1, min, max);
    lemma_clean_jpeg(s, c1 + 2, a2, c2, min, max);
    lemma_nothing_after(s, c2 + 2, min, max);
    assert(drive(s, c1 + 2, min, max) =~= seq![(a2, c2 + 2)]);
    assert(drive(s, 0, min, max) =~= seq![(a1, c1 + 2), (a2, c2 + 2)]);
}

/// Two full driver runs over sources with the same bytes yield the same
/// candidate ranges.
pub proof fn lemma_rerun_identical(s: Seq<u8>, t: Seq<u8>, min: int, max: int)
    requires
        s =~= t,
    ensures
        drive(s, 0, min, max) == drive(t, 0, min, max),
{
}

/// With no end marker at which a candidate from the anchor `a` could close
/// within `max` bytes, the extent search never closes, and it goes past
/// `max` whenever the source reaches that far.
proof fn lemma_no_close(s: Seq<u8>, a: int, x: int, depth: int, max: int)
    requires
        a <= x,
        a + 2 <= s.len(),
        x == a || x + 1 <= a + max,
        forall|y: int| a <= y && y + 2 - a <= max ==> !is_eoi(s, y),
    ensures
        !(extent(s, a, x, depth, max) is Closed),
        a + max + 1 <= s.len() ==> extent(s, a, x, depth, max) is Oversized,
    decreases s.len() - x,
{
    if x + 2 > s.len() {
    } else if x + 2 - a > max {
    } else if is_soi(s, x) {
        lemma_no_close(s, a, x + 1, depth + 1, max);
    } else {
        lemma_no_close(s, a, x + 1, depth, max);
    }
}

/// An anchor from which no candidate closes within `max` bytes is abandoned:
/// no candidate starting there is ever returned, and where the source goes
/// on past `max` bytes the scan resumes `LOOKAHEAD` bytes after the anchor.
pub proof fn lemma_oversized_abandoned(s: Seq<u8>, o: int, a: int, min: int, max: int)
    requires
        o <= a,
        is_anchor(s, a),
        forall|y: int| o <= y < a ==> !is_anchor(s, y),
        forall|y: int| a <= y && y + 2 - a <= max ==> !is_eoi(s, y),
    ensures
        scan(s, o, min, max) matches Some((b, e)) ==> b != a,
        a + max + 1 <= s.len() ==> scan(s, o, min, max) == scan(s, a + LOOKAHEAD, min, max),
{
    lemma_first_anchor_is(s, o, a);
    lemma_no_close(s, a, a, 0, max);
    lemma_scan_candidate(s, a + LOOKAHEAD, min, max);
}

/// The driver's candidates from cursor `from` lie in the source after the
/// cursor, each starting at an anchor and spanning between `min` and `max`
/// bytes, in increasing order of offset and without overlap.
pub proof fn lemma_drive_ordered(s: Seq<u8>, from: int, min: int, max: int)
    ensures
        forall|i: int| 0 <= i < drive(s, from, min, max).len() ==> {
            let (a, e) = #[trigger] drive(s, from, min, max)[i];
            from <= a && is_anchor(s, a) && a < e <= s.len() && min <= e - a <= max
        },
        forall|i: int| 0 <= i < drive(s, from, min, max).len() - 1
            ==> (#[trigger] drive(s, from, min, max)[i]).1 <= drive(s, from, min, max)[i + 1].0,
    decreases s.len() - from,
{
    lemma_scan_candidate(s, from, min, max);
    if let Some((a, e)) = scan(s, from, min, max) {
        lemma_drive_ordered(s, e, min, max);
        let rest = drive(s, e, min, max);
        assert(drive(s, from, min, max) == seq![(a, e)].add(rest));
        assert forall|i: int| 0 <= i < drive(s, from, min, max).len() - 1 implies
            (#[trigger] drive(s, from, min, max)[i]).1 <= drive(s, from, min, max)[i + 1].0 by {
            if i > 0 {
                assert(drive(s, from, min, max)[i] == rest[i - 1]);
            }
        }
    }
}

} // verus!
