//! Errors that end an import run.
use crate::header_store::StoreError;
use vstd::prelude::*;

verus! {

/// Why an import run stopped.
#[derive(Debug, Clone, Copy, PartialEq, Eq)]
pub enum ImportError {
    /// No reachable peer supplied the segment headers.
    Network,
    /// The downloaded headers could not be stored.
    Store(StoreError),
    /// Too few usable pieces of a segment, or its decoded data is inconsistent.
    Reconstruction { segment_index: u64 },
    /// A decoded block differs from the block the node already has.
    ChainMismatch { block_number: u32 },
    /// Decoded blocks do not come in increasing order.
    BlockOutOfOrder { block_number: u32 },
}

} // verus!
