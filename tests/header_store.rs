use dsn_sync::header_store::{SegmentHeaderStore, StoreError, ValidationError};
use dsn_sync::segments::{ArchivedBlockProgress, LastArchivedBlock, SegmentHeader};

fn header(segment_index: u64) -> SegmentHeader {
    SegmentHeader {
        segment_index,
        segment_commitment: [segment_index as u8; 48],
        last_archived_block: LastArchivedBlock {
            number: (segment_index as u32) * 10,
            archived_progress: ArchivedBlockProgress::Complete,
        },
    }
}

/// Accepts a piece whose first byte equals the commitment's first byte.
fn first_byte_verifier(piece: &Vec<u8>, _piece_index: u64, segment_commitment: &[u8; 48]) -> bool {
    piece.first() == Some(&segment_commitment[0])
}

#[test]
fn headers_are_stored_in_order() {
    let mut store = SegmentHeaderStore::new();
    store.add_segment_headers(&vec![header(0), header(1), header(2)]).unwrap();
    assert_eq!(store.len(), 3);
    assert_eq!(store.get(1), Some(header(1)));
    assert_eq!(store.get(3), None);
}

#[test]
fn adding_known_headers_again_changes_nothing() {
    let mut store = SegmentHeaderStore::new();
    store.add_segment_headers(&vec![header(0), header(1)]).unwrap();
    store.add_segment_headers(&vec![header(0), header(1)]).unwrap();
    assert_eq!(store.len(), 2);
    store.add_segment_headers(&vec![header(1), header(2)]).unwrap();
    assert_eq!(store.len(), 3);
}

#[test]
fn gap_refuses_the_whole_batch() {
    let mut store = SegmentHeaderStore::new();
    store.add_segment_headers(&vec![header(0)]).unwrap();
    assert_eq!(
        store.add_segment_headers(&vec![header(1), header(3)]),
        Err(StoreError::SegmentIndexGap { expected: 2, found: 3 })
    );
    assert_eq!(store.len(), 1);
}

#[test]
fn piece_of_unknown_segment_is_refused() {
    let mut store = SegmentHeaderStore::new();
    store.add_segment_headers(&vec![header(0), header(1)]).unwrap();
    assert_eq!(
        store.validate_piece(&first_byte_verifier, &vec![2], 2 * 256 + 5),
        Err(ValidationError::UnknownSegment { segment_index: 2 })
    );
}

#[test]
fn piece_failing_its_commitment_is_refused() {
    let mut store = SegmentHeaderStore::new();
    store.add_segment_headers(&vec![header(0), header(1)]).unwrap();
    assert_eq!(
        store.validate_piece(&first_byte_verifier, &vec![9], 256 + 5),
        Err(ValidationError::InvalidPieceProof { piece_index: 261 })
    );
    assert_eq!(store.validate_piece(&first_byte_verifier, &vec![1], 256 + 5), Ok(()));
}

#[test]
fn only_validated_pieces_are_usable() {
    let mut store = SegmentHeaderStore::new();
    store.add_segment_headers(&vec![header(0), header(1)]).unwrap();
    assert_eq!(store.usable_piece(&first_byte_verifier, 300, Some(vec![1, 7])), Some(vec![1, 7]));
    assert_eq!(store.usable_piece(&first_byte_verifier, 300, Some(vec![0, 7])), None);
    assert_eq!(store.usable_piece(&first_byte_verifier, 300, None), None);
    assert_eq!(store.usable_piece(&first_byte_verifier, 600, Some(vec![2])), None);
}
