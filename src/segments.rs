//! Archived segments: how pieces are numbered, what a segment header says, and
//! whether a segment still holds blocks the node lacks.
use vstd::prelude::*;

verus! {

/// Source pieces of a segment: any this many pieces of it rebuild its data.
pub const NUM_RAW_RECORDS: usize = 128;

/// Pieces of a segment: the source pieces first, then as many parity pieces.
pub const NUM_PIECES: usize = 256;

/// Bytes of a segment commitment.
pub const COMMITMENT_SIZE: usize = 48;

/// The largest segment index whose pieces all have a `u64` index.
pub const MAX_SEGMENT_INDEX: u64 = 72057594037927935;

/// The segment that a piece belongs to.
pub open spec fn piece_segment(piece_index: u64) -> u64 {
    piece_index / NUM_PIECES as u64
}

/// Where a piece stands within its segment.
pub open spec fn piece_position(piece_index: u64) -> int {
    (piece_index % NUM_PIECES as u64) as int
}

/// The index of the first piece of a segment.
pub open spec fn first_piece(segment_index: u64) -> int {
    segment_index * NUM_PIECES
}

pub fn segment_index_of(piece_index: u64) -> (r: u64)
    ensures
        r == piece_segment(piece_index),
{
    piece_index / (NUM_PIECES as u64)
}

pub fn position_of(piece_index: u64) -> (r: usize)
    ensures
        r == piece_position(piece_index),
        r < NUM_PIECES,
{
    (piece_index % (NUM_PIECES as u64)) as usize
}

/// The piece indices of a segment, source pieces first: those are the cheapest
/// to use, as they hold the data itself.
pub fn segment_piece_indexes_source_first(segment_index: u64) -> (r: Vec<u64>)
    requires
        segment_index <= MAX_SEGMENT_INDEX,
    ensures
        r@.len() == NUM_PIECES,
        forall|i: int| 0 <= i < NUM_PIECES ==> r@[i] == first_piece(segment_index) + i,
        forall|i: int| 0 <= i < NUM_PIECES ==> piece_segment(#[trigger] r@[i]) == segment_index && piece_position(r@[i]) == i,
{
    assert(segment_index * 256 + 255 <= u64::MAX) by (nonlinear_arith)
        requires
            segment_index <= MAX_SEGMENT_INDEX,
    ;
    let first: u64 = segment_index * (NUM_PIECES as u64);
    let mut r: Vec<u64> = Vec::new();
    let mut i: usize = 0;
    while i < NUM_PIECES
        invariant
            i <= NUM_PIECES,
            first == first_piece(segment_index),
            first + NUM_PIECES - 1 <= u64::MAX,
            r@.len() == i,
            forall|j: int| 0 <= j < i ==> r@[j] == first + j,
        decreases NUM_PIECES - i,
    {
        r.push(first + i as u64);
        i = i + 1;
    }
    assert forall|i: int| 0 <= i < NUM_PIECES implies piece_segment(#[trigger] r@[i]) == segment_index && piece_position(r@[i]) == i by {
        assert((segment_index * 256 + i) / 256 == segment_index && (segment_index * 256 + i) % 256 == i) by (nonlinear_arith)
            requires
                0 <= i < 256,
        ;
    }
    r
}

/// How much of the last block a segment covers.
#[derive(Debug, Clone, Copy, PartialEq, Eq)]
pub enum ArchivedBlockProgress {
    /// The block ends within the segment.
    Complete,
    /// Only this many bytes of the block are in the segment; the rest follows in
    /// the next one.
    Partial(u32),
}

/// The last block that a segment covers.
#[derive(Debug, Clone, Copy, PartialEq, Eq)]
pub struct LastArchivedBlock {
    pub number: u32,
    pub archived_progress: ArchivedBlockProgress,
}

/// What the archive says of one segment.
#[derive(Debug, Clone, Copy, PartialEq, Eq)]
pub struct SegmentHeader {
    pub segment_index: u64,
    /// Commitment to the segment's pieces, against which each piece is checked.
    pub segment_commitment: [u8; COMMITMENT_SIZE],
    pub last_archived_block: LastArchivedBlock,
}

/// Whether a segment still holds blocks to import: its last block is past the
/// best block, and it is not the final segment holding only the start of the
/// block right after the best one.
pub open spec fn needs_import(header: SegmentHeader, best_block: u32, is_last_segment: bool) -> bool {
    let n = header.last_archived_block.number;
    let partial = header.last_archived_block.archived_progress is Partial;
    !(n <= best_block || (n == best_block + 1 && partial && is_last_segment))
}

pub fn segment_needs_import(header: &SegmentHeader, best_block: u32, is_last_segment: bool) -> (r: bool)
    ensures
        r == needs_import(*header, best_block, is_last_segment),
{
    let n = header.last_archived_block.number;
    let partial = match header.last_archived_block.archived_progress {
        ArchivedBlockProgress::Partial(_) => true,
        ArchivedBlockProgress::Complete => false,
    };
    if n <= best_block {
        return false;
    }
    // here n > best_block, so best_block + 1 fits
    !(n == best_block + 1 && partial && is_last_segment)
}

} // verus!
