use dsn_sync::header_store::SegmentHeaderStore;
use dsn_sync::segment_cursor::{SegmentCursor, SegmentStep};
use dsn_sync::segments::{ArchivedBlockProgress, LastArchivedBlock, SegmentHeader};

fn header(segment_index: u64, number: u32, progress: ArchivedBlockProgress) -> SegmentHeader {
    SegmentHeader {
        segment_index,
        segment_commitment: [0u8; 48],
        last_archived_block: LastArchivedBlock { number, archived_progress: progress },
    }
}

fn store_of(headers: Vec<SegmentHeader>) -> SegmentHeaderStore {
    let mut store = SegmentHeaderStore::new();
    store.add_segment_headers(&headers).unwrap();
    store
}

#[test]
fn three_segments_fetch_from_segment_one() {
    let store = store_of(vec![
        header(0, 0, ArchivedBlockProgress::Complete),
        header(1, 50, ArchivedBlockProgress::Complete),
        header(2, 90, ArchivedBlockProgress::Partial(7)),
    ]);
    let mut cursor = SegmentCursor::new(3);
    assert_eq!(cursor.step(&store, 0), SegmentStep::Fetch { segment_index: 1, is_last: false });
    assert_eq!(cursor.step(&store, 0), SegmentStep::Fetch { segment_index: 2, is_last: true });
    assert_eq!(cursor.step(&store, 0), SegmentStep::Done);
    assert_eq!(cursor.step(&store, 0), SegmentStep::Done);
}

#[test]
fn imported_segments_are_skipped() {
    let store = store_of(vec![
        header(0, 0, ArchivedBlockProgress::Complete),
        header(1, 50, ArchivedBlockProgress::Complete),
        header(2, 90, ArchivedBlockProgress::Complete),
    ]);
    let mut cursor = SegmentCursor::new(3);
    assert_eq!(cursor.step(&store, 90), SegmentStep::Skip { segment_index: 1 });
    assert_eq!(cursor.step(&store, 90), SegmentStep::Skip { segment_index: 2 });
    assert_eq!(cursor.step(&store, 90), SegmentStep::Done);
}

#[test]
fn partial_final_block_alone_is_not_fetched() {
    let store = store_of(vec![
        header(0, 0, ArchivedBlockProgress::Complete),
        header(1, 50, ArchivedBlockProgress::Partial(3)),
    ]);
    let mut cursor = SegmentCursor::new(2);
    assert_eq!(cursor.step(&store, 49), SegmentStep::Skip { segment_index: 1 });
}

#[test]
fn single_segment_has_nothing_to_fetch() {
    let store = store_of(vec![header(0, 10, ArchivedBlockProgress::Complete)]);
    let mut cursor = SegmentCursor::new(1);
    assert_eq!(cursor.step(&store, 0), SegmentStep::Done);
}
