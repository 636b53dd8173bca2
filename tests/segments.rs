use dsn_sync::segments::{
    position_of, segment_index_of, segment_needs_import, segment_piece_indexes_source_first,
    ArchivedBlockProgress, LastArchivedBlock, SegmentHeader, NUM_PIECES, NUM_RAW_RECORDS,
};

fn header(segment_index: u64, number: u32, progress: ArchivedBlockProgress) -> SegmentHeader {
    SegmentHeader {
        segment_index,
        segment_commitment: [0u8; 48],
        last_archived_block: LastArchivedBlock { number, archived_progress: progress },
    }
}

#[test]
fn piece_index_splits_into_segment_and_position() {
    assert_eq!(segment_index_of(0), 0);
    assert_eq!(segment_index_of(255), 0);
    assert_eq!(segment_index_of(256), 1);
    assert_eq!(position_of(256 * 7 + 13), 13);
    assert_eq!(segment_index_of(256 * 7 + 13), 7);
}

#[test]
fn source_pieces_come_first() {
    let indexes = segment_piece_indexes_source_first(2);
    assert_eq!(indexes.len(), NUM_PIECES);
    assert_eq!(indexes[0], 512);
    assert_eq!(indexes[NUM_RAW_RECORDS - 1], 512 + 127);
    assert_eq!(indexes[NUM_RAW_RECORDS], 512 + 128);
    assert_eq!(indexes[NUM_PIECES - 1], 767);
}

#[test]
fn segment_below_best_block_is_passed_over() {
    let h = header(1, 100, ArchivedBlockProgress::Complete);
    assert!(!segment_needs_import(&h, 100, false));
    assert!(!segment_needs_import(&h, 150, true));
    assert!(segment_needs_import(&h, 99, false));
}

#[test]
fn last_segment_with_only_part_of_next_block_is_passed_over() {
    let h = header(3, 101, ArchivedBlockProgress::Partial(10));
    assert!(!segment_needs_import(&h, 100, true));
    assert!(segment_needs_import(&h, 100, false));
    assert!(segment_needs_import(&h, 99, true));
    let complete = header(3, 101, ArchivedBlockProgress::Complete);
    assert!(segment_needs_import(&complete, 100, true));
}

#[test]
fn best_block_at_the_top_of_the_range() {
    let h = header(1, u32::MAX, ArchivedBlockProgress::Partial(1));
    assert!(!segment_needs_import(&h, u32::MAX, true));
    assert!(!segment_needs_import(&h, u32::MAX - 1, true));
}
