//! The walk over the archived segments of one import run: segment 0 is never
//! fetched, as every node has it, and the others come in increasing order.
use crate::header_store::{has_segment, SegmentHeaderStore};
use crate::segments::{needs_import, segment_needs_import};
use vstd::prelude::*;

verus! {

/// What to do with the next segment.
#[derive(Debug, Clone, Copy, PartialEq, Eq, Structural)]
pub enum SegmentStep {
    /// The node has its blocks: start the next segment's decoding afresh.
    Skip { segment_index: u64 },
    /// Fetch and decode it; `is_last` on the final segment found.
    Fetch { segment_index: u64, is_last: bool },
    /// No segment is left.
    Done,
}

/// The step for `segment_index` out of `segments_found`, with the headers in `store`.
pub open spec fn step_for(store: Seq<crate::segments::SegmentHeader>, segment_index: u64, segments_found: u64, best_block: u32) -> SegmentStep {
    let is_last = segment_index + 1 == segments_found;
    if has_segment(store, segment_index) && !needs_import(store[segment_index as int], best_block, is_last) {
        SegmentStep::Skip { segment_index }
    } else {
        SegmentStep::Fetch { segment_index, is_last }
    }
}

/// Where the walk stands.
pub struct SegmentCursor {
    next: u64,
    segments_found: u64,
}

impl SegmentCursor {
    pub closed spec fn next_index(&self) -> u64 {
        self.next
    }

    pub closed spec fn segments_found(&self) -> u64 {
        self.segments_found
    }

    /// A walk over `segments_found` segments, from segment 1.
    pub fn new(segments_found: u64) -> (r: SegmentCursor)
        ensures
            r.next_index() == 1,
            r.segments_found() == segments_found,
    {
        SegmentCursor { next: 1, segments_found }
    }

    /// The next segment, in increasing order, and whether the best block number
    /// already covers it.
    pub fn step(&mut self, store: &SegmentHeaderStore, best_block: u32) -> (r: SegmentStep)
        ensures
            final(self).segments_found() == old(self).segments_found(),
            old(self).next_index() < old(self).segments_found() ==> r == step_for(
                store@,
                old(self).next_index(),
                old(self).segments_found(),
                best_block,
            ) && final(self).next_index() == old(self).next_index() + 1,
            old(self).next_index() >= old(self).segments_found() ==> r == SegmentStep::Done && final(self).next_index()
                == old(self).next_index(),
    {
        if self.next >= self.segments_found {
            return SegmentStep::Done;
        }
        let segment_index = self.next;
        self.next = self.next + 1;
        let is_last = self.next == self.segments_found;
        match store.get(segment_index) {
            Some(header) => {
                if !segment_needs_import(&header, best_block, is_last) {
                    return SegmentStep::Skip { segment_index };
                }
            },
            None => {},
        }
        SegmentStep::Fetch { segment_index, is_last }
    }
}

} // verus!
