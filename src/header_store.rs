//! The segment headers known to the node, and the check of a fetched piece against
//! the commitment of its segment.
use crate::segments::{piece_segment, segment_index_of, SegmentHeader, COMMITMENT_SIZE};
use vstd::prelude::*;

verus! {

/// Why a batch of headers was refused.
#[derive(Debug, Clone, Copy, PartialEq, Eq)]
pub enum StoreError {
    /// A header skips ahead of the next segment index to store.
    SegmentIndexGap { expected: u64, found: u64 },
}

/// Why a piece is unusable.
#[derive(Debug, Clone, Copy, PartialEq, Eq)]
pub enum ValidationError {
    /// No header of the piece's segment is stored yet.
    UnknownSegment { segment_index: u64 },
    /// The piece does not match its segment's commitment.
    InvalidPieceProof { piece_index: u64 },
}

/// The verdict of a commitment check: `holds` is what `verifier` answered for
/// this piece, this index and the commitment of the piece's own segment.
pub open spec fn checked_against_segment<F: Fn(&Vec<u8>, u64, &[u8; COMMITMENT_SIZE]) -> bool>(
    store: Seq<SegmentHeader>,
    verifier: F,
    piece: Vec<u8>,
    piece_index: u64,
    holds: bool,
) -> bool {
    has_segment(store, piece_segment(piece_index)) && call_ensures(
        verifier,
        (&piece, piece_index, &store[piece_segment(piece_index) as int].segment_commitment),
        holds,
    )
}

/// A checker of pieces against segment commitments that takes every input.
pub open spec fn total_verifier<F: Fn(&Vec<u8>, u64, &[u8; COMMITMENT_SIZE]) -> bool>(verifier: F) -> bool {
    forall|piece: &Vec<u8>, piece_index: u64, commitment: &[u8; COMMITMENT_SIZE]|
        #[trigger] call_requires(verifier, (piece, piece_index, commitment))
}

/// The headers stored after adding `new` to `cur`, in order: a header already
/// stored is passed over, the next one is appended, and one past the next makes
/// the whole batch refused.
pub open spec fn stored_after(cur: Seq<SegmentHeader>, new: Seq<SegmentHeader>) -> Option<Seq<SegmentHeader>>
    decreases new.len(),
{
    if new.len() == 0 {
        Some(cur)
    } else {
        match stored_after(cur, new.drop_last()) {
            None => None,
            Some(c) => {
                let h = new.last();
                if h.segment_index < c.len() {
                    Some(c)
                } else if h.segment_index == c.len() {
                    Some(c.push(h))
                } else {
                    None
                }
            },
        }
    }
}

/// Each header stands at its own segment index.
pub open spec fn indexed_in_place(v: Seq<SegmentHeader>) -> bool {
    forall|i: int| 0 <= i < v.len() ==> (#[trigger] v[i]).segment_index == i
}

/// Whether a header of `segment_index` is stored.
pub open spec fn has_segment(v: Seq<SegmentHeader>, segment_index: u64) -> bool {
    segment_index < v.len()
}

/// What a piece is checked with: `Ok` where its proof holds.
pub open spec fn proof_verdict_of(piece_index: u64, proof_holds: bool) -> Result<(), ValidationError> {
    if proof_holds {
        Ok(())
    } else {
        Err(ValidationError::InvalidPieceProof { piece_index })
    }
}

/// Turns the commitment check of a piece into the validator's answer.
pub fn proof_verdict(piece_index: u64, proof_holds: bool) -> (r: Result<(), ValidationError>)
    ensures
        r == proof_verdict_of(piece_index, proof_holds),
{
    if proof_holds {
        Ok(())
    } else {
        Err(ValidationError::InvalidPieceProof { piece_index })
    }
}

/// Segment headers by segment index, from segment 0 on without gaps.
pub struct SegmentHeaderStore {
    headers: Vec<SegmentHeader>,
}

impl View for SegmentHeaderStore {
    type V = Seq<SegmentHeader>;

    closed spec fn view(&self) -> Seq<SegmentHeader> {
        self.headers@
    }
}

impl SegmentHeaderStore {
    pub open spec fn well_formed(&self) -> bool {
        indexed_in_place(self@)
    }

    pub fn new() -> (r: SegmentHeaderStore)
        ensures
            r@ == Seq::<SegmentHeader>::empty(),
            r.well_formed(),
    {
        SegmentHeaderStore { headers: Vec::new() }
    }

    /// The number of stored headers, which is the next segment index to store.
    pub fn len(&self) -> (r: usize)
        ensures
            r == self@.len(),
    {
        self.headers.len()
    }

    /// The header of `segment_index`, if stored.
    pub fn get(&self, segment_index: u64) -> (r: Option<SegmentHeader>)
        ensures
            r == (if has_segment(self@, segment_index) {
                Some(self@[segment_index as int])
            } else {
                None::<SegmentHeader>
            }),
    {
        if segment_index < self.headers.len() as u64 {
            Some(self.headers[segment_index as usize])
        } else {
            None
        }
    }

    /// Stores headers in segment order. Adding headers that are stored already
    /// changes nothing; a header that would leave a gap refuses the whole batch
    /// and leaves the store as it was.
    pub fn add_segment_headers(&mut self, headers: &Vec<SegmentHeader>) -> (r: Result<(), StoreError>)
        requires
            old(self).well_formed(),
        ensures
            final(self).well_formed(),
            match r {
                Ok(()) => stored_after(old(self)@, headers@) == Some(final(self)@),
                Err(_) => stored_after(old(self)@, headers@) is None && final(self)@ == old(self)@,
            },
    {
        let ghost v0 = self@;
        let len0 = self.headers.len();
        let mut k: usize = 0;
        while k < headers.len()
            invariant
                k <= headers@.len(),
                len0 == v0.len(),
                v0 == old(self)@,
                len0 <= self@.len(),
                self@.subrange(0, len0 as int) == v0,
                stored_after(v0, headers@.take(k as int)) == Some(self@),
                indexed_in_place(self@),
            decreases headers@.len() - k,
        {
            let h = headers[k];
            assert(headers@.take(k + 1).drop_last() =~= headers@.take(k as int));
            assert(headers@.take(k + 1).last() == h);
            let next = self.headers.len() as u64;
            if h.segment_index < next {
            } else if h.segment_index == next {
                self.headers.push(h);
                assert(self@.subrange(0, len0 as int) =~= v0);
            } else {
                assert(stored_after(v0, headers@.take(k + 1)) is None);
                self.headers.truncate(len0);
                assert(self@ =~= v0);
                proof {
                    lemma_refused_stays_refused(v0, headers@, k as int);
                }
                return Err(StoreError::SegmentIndexGap { expected: next, found: h.segment_index });
            }
            k = k + 1;
        }
        assert(headers@.take(headers@.len() as int) =~= headers@);
        Ok(())
    }

    /// Checks a piece against the commitment of its segment, with `verifier`
    /// (a polynomial commitment scheme in practice, supplied by the caller).
    pub fn validate_piece<F: Fn(&Vec<u8>, u64, &[u8; COMMITMENT_SIZE]) -> bool>(
        &self,
        verifier: &F,
        piece: &Vec<u8>,
        piece_index: u64,
    ) -> (r: Result<(), ValidationError>)
        requires
            total_verifier(*verifier),
        ensures
            !has_segment(self@, piece_segment(piece_index)) ==> r == Err::<(), ValidationError>(
                ValidationError::UnknownSegment { segment_index: piece_segment(piece_index) },
            ),
            has_segment(self@, piece_segment(piece_index)) ==> exists|holds: bool|
                checked_against_segment(self@, *verifier, *piece, piece_index, holds) && r == proof_verdict_of(
                    piece_index,
                    holds,
                ),
    {
        let segment_index = segment_index_of(piece_index);
        match self.get(segment_index) {
            None => Err(ValidationError::UnknownSegment { segment_index }),
            Some(header) => {
                let holds = verifier(piece, piece_index, &header.segment_commitment);
                let r = proof_verdict(piece_index, holds);
                assert(checked_against_segment(self@, *verifier, *piece, piece_index, holds));
                r
            },
        }
    }

    /// What a retrieval hands on: the fetched piece, only where it passed
    /// validation. A piece that failed counts as not found.
    pub fn usable_piece<F: Fn(&Vec<u8>, u64, &[u8; COMMITMENT_SIZE]) -> bool>(
        &self,
        verifier: &F,
        piece_index: u64,
        fetched: Option<Vec<u8>>,
    ) -> (r: Option<Vec<u8>>)
        requires
            total_verifier(*verifier),
        ensures
            fetched is None ==> r is None,
            fetched matches Some(p) ==> (!has_segment(self@, piece_segment(piece_index)) ==> r is None) && (has_segment(
                self@,
                piece_segment(piece_index),
            ) ==> exists|holds: bool|
                checked_against_segment(self@, *verifier, p, piece_index, holds) && r == (if holds {
                    Some(p)
                } else {
                    None::<Vec<u8>>
                })),
    {
        match fetched {
            None => None,
            Some(piece) => {
                let v = self.validate_piece(verifier, &piece, piece_index);
                match v {
                    Ok(()) => Some(piece),
                    Err(_) => None,
                }
            },
        }
    }
}

proof fn lemma_refused_stays_refused(cur: Seq<SegmentHeader>, new: Seq<SegmentHeader>, k: int)
    requires
        0 <= k < new.len(),
        stored_after(cur, new.take(k + 1)) is None,
    ensures
        stored_after(cur, new) is None,
    decreases new.len(),
{
    if k + 1 < new.len() {
        assert(new.drop_last().take(k + 1) =~= new.take(k + 1));
        lemma_refused_stays_refused(cur, new.drop_last(), k);
    } else {
        assert(new.take(k + 1) =~= new);
    }
}

} // verus!
