//! The JPEG markers that delimit an image, as predicates on a byte sequence
//! and as executable tests on a slice.
use vstd::prelude::*;

verus! {

/// First byte of every JPEG marker.
pub const MARKER_PREFIX: u8 = 0xff;

/// Second byte of the start-of-image marker `FF D8`.
pub const SOI_CODE: u8 = 0xd8;

/// Second byte of the end-of-image marker `FF D9`.
pub const EOI_CODE: u8 = 0xd9;

/// Offset of the vendor tag after a start-of-image marker.
pub const TAG_OFFSET: usize = 6;

/// Bytes that must follow the start of an anchor: the tag offset plus the
/// four bytes of the tag.
pub const LOOKAHEAD: usize = 10;

/// `FF D8` stands at position `x` of `s`.
pub open spec fn is_soi(s: Seq<u8>, x: int) -> bool {
    0 <= x && x + 2 <= s.len() && s[x] == MARKER_PREFIX && s[x + 1] == SOI_CODE
}

/// `FF D9` stands at position `x` of `s`.
pub open spec fn is_eoi(s: Seq<u8>, x: int) -> bool {
    0 <= x && x + 2 <= s.len() && s[x] == MARKER_PREFIX && s[x + 1] == EOI_CODE
}

/// The four bytes at `x` spell `JFIF` or `Exif`.
pub open spec fn is_vendor_tag(s: Seq<u8>, x: int) -> bool {
    0 <= x && x + 4 <= s.len() && (
        (s[x] == 0x4a && s[x + 1] == 0x46 && s[x + 2] == 0x49 && s[x + 3] == 0x46)
        || (s[x] == 0x45 && s[x + 1] == 0x78 && s[x + 2] == 0x69 && s[x + 3] == 0x66)
    )
}

/// A start marker at `x` whose vendor tag follows `TAG_OFFSET` bytes later,
/// standing before the last `LOOKAHEAD` bytes of the source.
pub open spec fn is_anchor(s: Seq<u8>, x: int) -> bool {
    0 <= x && x + LOOKAHEAD < s.len() && is_soi(s, x) && is_vendor_tag(s, x + TAG_OFFSET)
}

/// Tests for `FF D8` at position `x`.
pub fn soi_at(s: &[u8], x: usize) -> (r: bool)
    requires
        x + 1 < s@.len(),
    ensures
        r == is_soi(s@, x as int),
{
    s[x] == MARKER_PREFIX && s[x + 1] == SOI_CODE
}

/// Tests for `FF D9` at position `x`.
pub fn eoi_at(s: &[u8], x: usize) -> (r: bool)
    requires
        x + 1 < s@.len(),
    ensures
        r == is_eoi(s@, x as int),
{
    s[x] == MARKER_PREFIX && s[x + 1] == EOI_CODE
}

/// Tests for an anchor at position `x`.
pub fn anchor_at(s: &[u8], x: usize) -> (r: bool)
    requires
        x + LOOKAHEAD < s@.len(),
    ensures
        r == is_anchor(s@, x as int),
{
    let n = s.len();
    let t = x + TAG_OFFSET;
    t + 3 < n && soi_at(s, x) && (
        (s[t] == 0x4a && s[t + 1] == 0x46 && s[t + 2] == 0x49 && s[t + 3] == 0x46)
        || (s[t] == 0x45 && s[t + 1] == 0x78 && s[t + 2] == 0x69 && s[t + 3] == 0x66)
    )
}

} // verus!
