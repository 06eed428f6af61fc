use jpeg_recover::recovery::{recover_all, Recovery};
use jpeg_recover::scanner::{find_anchor, find_jpeg, scan_extent, Extent, Jpeg};

/// A minimal image: start marker, APP0 header with the given vendor tag,
/// `payload` bytes of `fill`, end marker. Its length is `payload + 12`.
fn image(tag: &[u8; 4], payload: usize, fill: u8) -> Vec<u8> {
    let mut v = vec![0xff, 0xd8, 0xff, 0xe0, 0x00, 0x10];
    v.extend_from_slice(tag);
    v.extend(std::iter::repeat(fill).take(payload));
    v.extend_from_slice(&[0xff, 0xd9]);
    v
}

fn filler(n: usize) -> Vec<u8> {
    (0..n).map(|i| (i % 200) as u8).collect()
}

#[test]
fn single_image_is_found_exactly() {
    let mut src = filler(37);
    src.extend(image(b"JFIF", 100, 0x11));
    src.extend(filler(50));
    let r = find_jpeg(&src, 0, 50, 1000);
    assert_eq!(r, Some(Jpeg { soi: 37, eoi: 149 }));
    assert_eq!(find_jpeg(&src, 149, 50, 1000), None);
}

#[test]
fn exif_tag_is_accepted() {
    let mut src = filler(5);
    src.extend(image(b"Exif", 40, 0x22));
    src.extend(filler(20));
    assert_eq!(find_jpeg(&src, 0, 10, 1000), Some(Jpeg { soi: 5, eoi: 57 }));
}

#[test]
fn untagged_start_marker_is_no_anchor() {
    let mut src = filler(5);
    src.extend(image(b"JFXX", 40, 0x22));
    src.extend(filler(20));
    assert_eq!(find_jpeg(&src, 0, 10, 1000), None);
    assert_eq!(find_anchor(&src, 0), None);
}

#[test]
fn undersized_image_is_skipped() {
    let mut src = image(b"JFIF", 4, 0x33);
    src.extend(filler(30));
    src.extend(image(b"JFIF", 100, 0x44));
    src.extend(filler(10));
    // the first image spans 16 bytes, under the smallest size
    assert_eq!(find_jpeg(&src, 0, 20, 1000), Some(Jpeg { soi: 46, eoi: 158 }));
}

#[test]
fn rejected_anchor_resumes_after_lookahead() {
    // a tagged start marker at 0 closing at 20, and a second tagged start
    // marker at 4, inside the first one's lookahead, closing at 16
    let mut src = vec![0xff, 0xd8, 0x00, 0x00, 0xff, 0xd8, b'J', b'F', b'I', b'F'];
    src.extend_from_slice(&[b'J', b'F', b'I', b'F', 0x00, 0x00, 0xff, 0xd9]);
    src.extend_from_slice(&[0x00, 0x00, 0xff, 0xd9]);
    src.extend(filler(40));
    assert_eq!(find_anchor(&src, 0), Some(0));
    assert_eq!(find_anchor(&src, 1), Some(4));
    assert_eq!(find_anchor(&src, 5), None);
    assert_eq!(find_jpeg(&src, 0, 1, 100), Some(Jpeg { soi: 0, eoi: 22 }));
    assert_eq!(find_jpeg(&src, 1, 1, 21), Some(Jpeg { soi: 4, eoi: 18 }));
    // oversized at 0: the search resumes at 10 and never sees the anchor at 4
    assert_eq!(find_jpeg(&src, 0, 1, 21), None);
    // undersized at 0: neither anchor is matched again
    assert_eq!(find_jpeg(&src, 0, 23, 100), None);
}

#[test]
fn smallest_size_is_inclusive() {
    let mut src = image(b"JFIF", 30, 0x01);
    src.extend(filler(20));
    assert_eq!(find_jpeg(&src, 0, 42, 1000), Some(Jpeg { soi: 0, eoi: 42 }));
    assert_eq!(find_jpeg(&src, 0, 43, 1000), None);
}

#[test]
fn largest_size_is_inclusive() {
    let mut src = image(b"JFIF", 30, 0x01);
    src.extend(filler(20));
    assert_eq!(find_jpeg(&src, 0, 1, 42), Some(Jpeg { soi: 0, eoi: 42 }));
    assert_eq!(find_jpeg(&src, 0, 1, 41), None);
}

#[test]
fn no_start_marker_finds_nothing() {
    for n in [0usize, 1, 9, 10, 11, 500, 5000] {
        let src: Vec<u8> = (0..n).map(|i| if i % 7 == 0 { 0xff } else { 0xd9 }).collect();
        assert_eq!(find_jpeg(&src, 0, 0, usize::MAX), None);
        assert!(recover_all(&src, 0, usize::MAX).is_empty());
    }
}

#[test]
fn two_images_in_order() {
    let mut src = filler(12);
    src.extend(image(b"JFIF", 60, 0x55));
    src.extend(filler(8));
    src.extend(image(b"Exif", 80, 0x66));
    src.extend(filler(8));
    let all = recover_all(&src, 20, 1000);
    assert_eq!(all, vec![Jpeg { soi: 12, eoi: 84 }, Jpeg { soi: 92, eoi: 184 }]);

    let mut session = Recovery::new(20, 1000);
    assert_eq!(session.cursor, 0);
    let first = session.next_jpeg(&src);
    assert_eq!(first, Some(Jpeg { soi: 12, eoi: 84 }));
    assert_eq!(session.cursor, 84);
    let second = session.next_jpeg(&src);
    assert_eq!(second, Some(Jpeg { soi: 92, eoi: 184 }));
    assert_eq!(session.cursor, 184);
    assert_eq!(session.next_jpeg(&src), None);
    assert_eq!(session.cursor, 184);
}

#[test]
fn rerun_gives_same_ranges() {
    let mut src = filler(3);
    src.extend(image(b"JFIF", 60, 0x55));
    src.extend(image(b"Exif", 20, 0x77));
    src.extend(filler(3));
    let once = recover_all(&src, 10, 1000);
    let twice = recover_all(&src, 10, 1000);
    assert_eq!(once, twice);
    assert_eq!(once, vec![Jpeg { soi: 3, eoi: 75 }, Jpeg { soi: 75, eoi: 107 }]);
}

#[test]
fn marker_in_last_lookahead_is_ignored() {
    // a tagged start marker whose lookahead ends exactly at the end
    let mut src = filler(20);
    src.extend_from_slice(&[0xff, 0xd8, 0xff, 0xe0, 0x00, 0x10, b'J', b'F', b'I', b'F']);
    assert_eq!(find_anchor(&src, 0), None);
    assert_eq!(find_jpeg(&src, 0, 0, usize::MAX), None);
    // one more byte brings it in
    src.push(0xff);
    src.push(0xd9);
    assert_eq!(find_anchor(&src, 0), Some(20));
    assert_eq!(find_jpeg(&src, 0, 0, usize::MAX), Some(Jpeg { soi: 20, eoi: 32 }));
}

#[test]
fn oversized_candidate_is_abandoned() {
    let mut src = image(b"JFIF", 200, 0x01);
    src.extend(filler(30));
    // 212 bytes up to the end marker, over the largest size of 100
    assert_eq!(find_jpeg(&src, 0, 10, 100), None);
    src.extend(image(b"Exif", 50, 0x02));
    assert_eq!(find_jpeg(&src, 0, 10, 100), Some(Jpeg { soi: 242, eoi: 304 }));
    assert_eq!(scan_extent(&src, 0, 100), Extent::Oversized);
}

#[test]
fn nested_image_is_kept_whole() {
    // outer header, a thumbnail with its own start and end markers, and the
    // outer end marker
    let mut src = vec![0xff, 0xd8, 0xff, 0xe1, 0x00, 0x10, b'E', b'x', b'i', b'f'];
    src.extend(filler(10));
    src.extend(image(b"JFIF", 20, 0x03));
    src.extend(filler(10));
    src.extend_from_slice(&[0xff, 0xd9]);
    src.extend(filler(10));
    assert_eq!(scan_extent(&src, 0, 1000), Extent::Closed(62));
    assert_eq!(find_jpeg(&src, 0, 10, 1000), Some(Jpeg { soi: 0, eoi: 64 }));
}

#[test]
fn doubly_nested_markers_close_at_outer_end() {
    let src = vec![
        0xff, 0xd8, 0x00, 0x00, 0x00, 0x00, b'J', b'F', b'I', b'F',
        0xff, 0xd8, 0xff, 0xd8, 0xff, 0xd9, 0xff, 0xd9, 0xff, 0xd9, 0x00, 0x00,
    ];
    assert_eq!(scan_extent(&src, 0, 100), Extent::Closed(18));
    assert_eq!(find_jpeg(&src, 0, 1, 100), Some(Jpeg { soi: 0, eoi: 20 }));
}

#[test]
fn source_ending_inside_candidate_finds_nothing() {
    let mut src = filler(4);
    src.extend_from_slice(&[0xff, 0xd8, 0xff, 0xe0, 0x00, 0x10, b'J', b'F', b'I', b'F']);
    src.extend(filler(60));
    assert_eq!(scan_extent(&src, 4, 1000), Extent::Exhausted);
    assert_eq!(find_jpeg(&src, 0, 1, 1000), None);
}

#[test]
fn cursor_past_end_finds_nothing() {
    let src = image(b"JFIF", 20, 0x00);
    assert_eq!(find_jpeg(&src, src.len(), 1, 1000), None);
    assert_eq!(find_jpeg(&src, src.len() + 5, 1, 1000), None);
    assert_eq!(scan_extent(&src, src.len() + 5, 1000), Extent::Exhausted);
}

#[test]
fn cursor_after_anchor_skips_it() {
    let mut src = image(b"JFIF", 20, 0x00);
    src.extend(filler(20));
    assert_eq!(find_jpeg(&src, 1, 1, 1000), None);
}
