use multidown::types::{static_segments, MIN_SEGMENT_SIZE};

#[test]
fn four_even_pieces_cover_exactly() {
    let segs = static_segments(100_000, 4);
    assert_eq!(
        segs,
        vec![(0, 24_999), (25_000, 49_999), (50_000, 74_999), (75_000, 99_999)]
    );
}

#[test]
fn last_piece_absorbs_remainder() {
    let segs = static_segments(10, 3);
    assert_eq!(segs, vec![(0, 2), (3, 5), (6, 9)]);
    let covered: u64 = segs.iter().map(|s| s.1 - s.0 + 1).sum();
    assert_eq!(covered, 10);
}

#[test]
fn count_is_min_of_n_and_total() {
    assert_eq!(static_segments(5, 8).len(), 5);
    assert_eq!(static_segments(8, 5).len(), 5);
    assert_eq!(static_segments(1, 1), vec![(0, 0)]);
}

#[test]
fn tiny_total_gives_unit_segments() {
    let segs = static_segments(3, 8);
    assert_eq!(segs, vec![(0, 0), (1, 1), (2, 2)]);
}

#[test]
fn zero_total_or_zero_count_gives_nothing() {
    assert!(static_segments(0, 4).is_empty());
    assert!(static_segments(1024, 0).is_empty());
}

#[test]
fn segments_are_disjoint_and_contiguous() {
    let total = 1_048_576u64;
    let segs = static_segments(total, 7);
    assert_eq!(segs[0].0, 0);
    assert_eq!(segs.last().unwrap().1, total - 1);
    for w in segs.windows(2) {
        assert_eq!(w[0].1 + 1, w[1].0);
    }
}

#[test]
fn min_segment_size_is_sixty_four_kib() {
    assert_eq!(MIN_SEGMENT_SIZE, 65_536);
}
