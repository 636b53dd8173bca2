//! Collecting the pieces of one segment from untrusted peers. At most
//! `NUM_RAW_RECORDS` fetches hold a slot at a time. A fetch that brings a usable
//! piece keeps its slot for good, one that fails hands it back, so the segment
//! needs the first `NUM_RAW_RECORDS` usable pieces rather than that many attempts.
//! Source pieces are asked for first; parity pieces wait for a returned slot.
use crate::errors::ImportError;
use crate::segments::{
    first_piece, piece_position, piece_segment, position_of, segment_index_of, MAX_SEGMENT_INDEX,
    NUM_PIECES, NUM_RAW_RECORDS,
};
use vstd::prelude::*;

verus! {

/// Where the fetch of one piece stands.
#[derive(Debug, Clone, Copy, PartialEq, Eq, Structural)]
pub enum SlotState {
    /// Not asked for yet.
    Waiting,
    /// Asked for; holds a slot.
    InFlight,
    /// Came back without a usable piece; its slot was handed back.
    Failed,
    /// Came back with a usable piece; its slot is used up.
    Received,
}

pub open spec fn count_state(s: Seq<SlotState>, st: SlotState) -> nat
    decreases s.len(),
{
    if s.len() == 0 {
        0
    } else {
        count_state(s.drop_last(), st) + if s.last() == st {
            1nat
        } else {
            0nat
        }
    }
}

/// The number of pieces that are present.
pub open spec fn present_count(p: Seq<Option<Vec<u8>>>) -> nat
    decreases p.len(),
{
    if p.len() == 0 {
        0
    } else {
        present_count(p.drop_last()) + if p.last() is Some {
            1nat
        } else {
            0nat
        }
    }
}

/// The state of a segment's collection.
pub struct CollectorModel {
    pub segment_index: u64,
    /// By position within the segment.
    pub slots: Seq<SlotState>,
    /// Fetches started so far, in source-first order.
    pub issued: nat,
    pub in_flight: nat,
    pub received: nat,
}

/// The states reachable from a fresh collection.
pub open spec fn model_ok(m: CollectorModel) -> bool {
    &&& m.segment_index <= MAX_SEGMENT_INDEX
    &&& m.slots.len() == NUM_PIECES
    &&& m.issued <= NUM_PIECES
    &&& forall|p: int| 0 <= p < NUM_PIECES ==> ((#[trigger] m.slots[p] == SlotState::Waiting) <==> p >= m.issued)
    &&& m.in_flight == count_state(m.slots, SlotState::InFlight)
    &&& m.received == count_state(m.slots, SlotState::Received)
    &&& m.in_flight + m.received <= NUM_RAW_RECORDS
}

/// Enough usable pieces to rebuild the segment.
pub open spec fn is_complete(m: CollectorModel) -> bool {
    m.received >= NUM_RAW_RECORDS
}

/// A slot is free and a piece is left to ask for.
pub open spec fn can_start(m: CollectorModel) -> bool {
    m.issued < NUM_PIECES && m.in_flight + m.received < NUM_RAW_RECORDS
}

/// Every piece was asked for, none is out, and too few came back usable.
pub open spec fn is_exhausted(m: CollectorModel) -> bool {
    m.issued == NUM_PIECES && m.in_flight == 0 && m.received < NUM_RAW_RECORDS
}

/// After the next fetch starts.
pub open spec fn started(m: CollectorModel) -> CollectorModel {
    CollectorModel {
        slots: m.slots.update(m.issued as int, SlotState::InFlight),
        issued: m.issued + 1,
        in_flight: m.in_flight + 1,
        ..m
    }
}

/// After the fetch at `position` comes back, usable or not. A result for a piece
/// that is not out changes nothing.
pub open spec fn settled(m: CollectorModel, position: int, usable: bool) -> CollectorModel {
    if 0 <= position < m.slots.len() && m.slots[position] == SlotState::InFlight {
        CollectorModel {
            slots: m.slots.update(
                position,
                if usable {
                    SlotState::Received
                } else {
                    SlotState::Failed
                },
            ),
            in_flight: (m.in_flight - 1) as nat,
            received: if usable {
                m.received + 1
            } else {
                m.received
            },
            ..m
        }
    } else {
        m
    }
}

pub proof fn lemma_count_update(s: Seq<SlotState>, i: int, new: SlotState, st: SlotState)
    requires
        0 <= i < s.len(),
    ensures
        count_state(s.update(i, new), st) + (if s[i] == st {
            1nat
        } else {
            0nat
        }) == count_state(s, st) + (if new == st {
            1nat
        } else {
            0nat
        }),
    decreases s.len(),
{
    let u = s.update(i, new);
    if i < s.len() - 1 {
        assert(u.drop_last() =~= s.drop_last().update(i, new));
        lemma_count_update(s.drop_last(), i, new, st);
    } else {
        assert(u.drop_last() =~= s.drop_last());
    }
}

proof fn lemma_present_matches_received(p: Seq<Option<Vec<u8>>>, s: Seq<SlotState>)
    requires
        p.len() == s.len(),
        forall|i: int| 0 <= i < p.len() ==> ((#[trigger] p[i]) is Some <==> s[i] == SlotState::Received),
    ensures
        present_count(p) == count_state(s, SlotState::Received),
    decreases p.len(),
{
    if p.len() > 0 {
        lemma_present_matches_received(p.drop_last(), s.drop_last());
    }
}

/// A fetch that comes back without a usable piece leaves the count of usable
/// pieces as it was and hands its slot back, so another piece can be asked for
/// while any is left.
pub proof fn lemma_failed_fetch_frees_slot(m: CollectorModel, position: int)
    requires
        model_ok(m),
        0 <= position < NUM_PIECES,
        m.slots[position] == SlotState::InFlight,
        m.issued < NUM_PIECES,
    ensures
        settled(m, position, false).received == m.received,
        model_ok(settled(m, position, false)),
        can_start(settled(m, position, false)),
{
    lemma_settled_ok(m, position, false);
}

proof fn lemma_settled_ok(m: CollectorModel, position: int, usable: bool)
    requires
        model_ok(m),
        0 <= position < NUM_PIECES,
        m.slots[position] == SlotState::InFlight,
    ensures
        model_ok(settled(m, position, usable)),
        m.in_flight >= 1,
{
    let n = settled(m, position, usable);
    let new = if usable {
        SlotState::Received
    } else {
        SlotState::Failed
    };
    lemma_count_update(m.slots, position, new, SlotState::InFlight);
    lemma_count_update(m.slots, position, new, SlotState::Received);
    assert forall|p: int| 0 <= p < NUM_PIECES implies ((#[trigger] n.slots[p] == SlotState::Waiting) <==> p >= n.issued) by {
        if p != position {
            assert(n.slots[p] == m.slots[p]);
        }
    }
}

proof fn lemma_started_ok(m: CollectorModel)
    requires
        model_ok(m),
        can_start(m),
    ensures
        model_ok(started(m)),
{
    let n = started(m);
    assert(m.slots[m.issued as int] == SlotState::Waiting);
    lemma_count_update(m.slots, m.issued as int, SlotState::InFlight, SlotState::InFlight);
    lemma_count_update(m.slots, m.issued as int, SlotState::InFlight, SlotState::Received);
    assert forall|p: int| 0 <= p < NUM_PIECES implies ((#[trigger] n.slots[p] == SlotState::Waiting) <==> p >= n.issued) by {
        if p != m.issued {
            assert(n.slots[p] == m.slots[p]);
        }
    }
}

proof fn lemma_count_none(s: Seq<SlotState>, st: SlotState)
    requires
        forall|p: int| 0 <= p < s.len() ==> #[trigger] s[p] != st,
    ensures
        count_state(s, st) == 0,
    decreases s.len(),
{
    if s.len() > 0 {
        lemma_count_none(s.drop_last(), st);
    }
}

/// The pieces of one segment gathered so far, with the fetch state of each.
pub struct PieceCollector {
    segment_index: u64,
    slots: Vec<SlotState>,
    pieces: Vec<Option<Vec<u8>>>,
    issued: usize,
    in_flight: usize,
    received: usize,
}

impl View for PieceCollector {
    type V = CollectorModel;

    closed spec fn view(&self) -> CollectorModel {
        CollectorModel {
            segment_index: self.segment_index,
            slots: self.slots@,
            issued: self.issued as nat,
            in_flight: self.in_flight as nat,
            received: self.received as nat,
        }
    }
}

impl PieceCollector {
    /// The pieces held, by position.
    pub closed spec fn pieces_view(&self) -> Seq<Option<Vec<u8>>> {
        self.pieces@
    }

    pub closed spec fn well_formed(&self) -> bool {
        &&& model_ok(self@)
        &&& self.pieces@.len() == NUM_PIECES
        &&& forall|p: int| 0 <= p < NUM_PIECES ==> ((#[trigger] self.pieces@[p]) is Some <==> self.slots@[p] == SlotState::Received)
    }

    /// A well-formed collection is in a reachable state: at most
    /// `NUM_RAW_RECORDS` fetches are out or used up, and the counts match the slots.
    pub proof fn lemma_well_formed_model(&self)
        requires
            self.well_formed(),
        ensures
            model_ok(self@),
    {
    }

    /// A fresh collection for `segment_index`: nothing asked for yet.
    pub fn new(segment_index: u64) -> (r: PieceCollector)
        requires
            segment_index <= MAX_SEGMENT_INDEX,
        ensures
            r.well_formed(),
            model_ok(r@),
            forall|p: int| 0 <= p < NUM_PIECES ==> #[trigger] r@.slots[p] == SlotState::Waiting,
            r@.segment_index == segment_index,
            r@.issued == 0,
            r@.in_flight == 0,
            r@.received == 0,
    {
        let mut slots: Vec<SlotState> = Vec::new();
        let mut pieces: Vec<Option<Vec<u8>>> = Vec::new();
        let mut i: usize = 0;
        while i < NUM_PIECES
            invariant
                i <= NUM_PIECES,
                slots@.len() == i,
                pieces@.len() == i,
                forall|p: int| 0 <= p < i ==> #[trigger] slots@[p] == SlotState::Waiting,
                forall|p: int| 0 <= p < i ==> (#[trigger] pieces@[p]) is None,
            decreases NUM_PIECES - i,
        {
            slots.push(SlotState::Waiting);
            pieces.push(None);
            i = i + 1;
        }
        proof {
            lemma_count_none(slots@, SlotState::InFlight);
            lemma_count_none(slots@, SlotState::Received);
        }
        PieceCollector { segment_index, slots, pieces, issued: 0, in_flight: 0, received: 0 }
    }

    pub fn segment_index(&self) -> (r: u64)
        ensures
            r == self@.segment_index,
    {
        self.segment_index
    }

    /// Whether enough usable pieces are in; results that arrive later are
    /// dropped.
    pub fn is_complete(&self) -> (r: bool)
        ensures
            r == is_complete(self@),
    {
        self.received >= NUM_RAW_RECORDS
    }

    /// Whether the segment can no longer reach enough usable pieces.
    pub fn is_exhausted(&self) -> (r: bool)
        ensures
            r == is_exhausted(self@),
    {
        self.issued == NUM_PIECES && self.in_flight == 0 && self.received < NUM_RAW_RECORDS
    }

    /// Starts the next fetch where a slot is free: the piece index to ask for.
    /// The first `NUM_RAW_RECORDS` calls on a fresh collection give the source
    /// pieces at once.
    pub fn next_fetch(&mut self) -> (r: Option<u64>)
        requires
            old(self).well_formed(),
        ensures
            final(self).well_formed(),
            model_ok(final(self)@),
            can_start(old(self)@) ==> r == Some((first_piece(old(self)@.segment_index) + old(self)@.issued) as u64)
                && final(self)@ == started(old(self)@),
            !can_start(old(self)@) ==> r is None && final(self)@ == old(self)@,
            final(self).pieces_view() == old(self).pieces_view(),
    {
        if self.issued < NUM_PIECES && self.in_flight + self.received < NUM_RAW_RECORDS {
            let position = self.issued;
            proof {
                lemma_started_ok(self@);
            }
            self.slots.set(position, SlotState::InFlight);
            self.issued = self.issued + 1;
            self.in_flight = self.in_flight + 1;
            assert(self@.slots =~= started(old(self)@).slots);
            assert(self.segment_index * 256 + 255 <= u64::MAX) by (nonlinear_arith)
                requires
                    self.segment_index <= MAX_SEGMENT_INDEX,
            ;
            Some(self.segment_index * (NUM_PIECES as u64) + position as u64)
        } else {
            None
        }
    }

    /// Takes the result of the fetch of `piece_index`: the piece where it was
    /// found and passed validation, `None` otherwise. A usable piece is kept and
    /// its slot stays used; a miss hands the slot back. A result for a piece of
    /// another segment, or one that is not out, is dropped.
    pub fn on_fetch_result(&mut self, piece_index: u64, result: Option<Vec<u8>>)
        requires
            old(self).well_formed(),
        ensures
            final(self).well_formed(),
            model_ok(final(self)@),
            piece_segment(piece_index) == old(self)@.segment_index ==> final(self)@ == settled(
                old(self)@,
                piece_position(piece_index),
                result is Some,
            ),
            piece_segment(piece_index) != old(self)@.segment_index ==> final(self)@ == old(self)@,
            final(self)@ != old(self)@ && result is Some ==> final(self).pieces_view() == old(self).pieces_view().update(
                piece_position(piece_index),
                result,
            ),
            final(self)@ == old(self)@ || result is None ==> final(self).pieces_view() == old(self).pieces_view(),
    {
        if segment_index_of(piece_index) != self.segment_index {
            return;
        }
        let position = position_of(piece_index);
        if self.slots[position] != SlotState::InFlight {
            return;
        }
        proof {
            lemma_settled_ok(self@, position as int, result is Some);
        }
        match result {
            Some(piece) => {
                self.slots.set(position, SlotState::Received);
                self.pieces.set(position, Some(piece));
                self.in_flight = self.in_flight - 1;
                self.received = self.received + 1;
                assert(self@.slots =~= settled(old(self)@, position as int, true).slots);
                assert(self@.slots != old(self)@.slots) by {
                    assert(self@.slots[position as int] != old(self)@.slots[position as int]);
                }
            },
            None => {
                self.slots.set(position, SlotState::Failed);
                self.in_flight = self.in_flight - 1;
                assert(self@.slots =~= settled(old(self)@, position as int, false).slots);
            },
        }
    }

    /// The pieces gathered, by position, ready for reconstruction.
    pub fn into_pieces(self) -> (r: Vec<Option<Vec<u8>>>)
        requires
            self.well_formed(),
        ensures
            r@ == self.pieces_view(),
            r@.len() == NUM_PIECES,
            present_count(r@) == self@.received,
    {
        proof {
            lemma_present_matches_received(self.pieces@, self.slots@);
        }
        self.pieces
    }
}

/// Whether pieces of one segment can be handed to the decoder: one entry per
/// position, and at least `NUM_RAW_RECORDS` of them present.
pub open spec fn enough_pieces(pieces: Seq<Option<Vec<u8>>>) -> bool {
    pieces.len() == NUM_PIECES && present_count(pieces) >= NUM_RAW_RECORDS
}

/// Refuses to rebuild a segment from too few pieces: with fewer than
/// `NUM_RAW_RECORDS` present the segment fails as a whole and nothing is decoded.
pub fn check_segment_pieces(pieces: &Vec<Option<Vec<u8>>>, segment_index: u64) -> (r: Result<(), ImportError>)
    ensures
        enough_pieces(pieces@) ==> r is Ok,
        !enough_pieces(pieces@) ==> r == Err::<(), ImportError>(ImportError::Reconstruction { segment_index }),
{
    if pieces.len() != NUM_PIECES {
        return Err(ImportError::Reconstruction { segment_index });
    }
    let mut present: usize = 0;
    let mut i: usize = 0;
    while i < pieces.len()
        invariant
            i <= pieces@.len(),
            pieces@.len() == NUM_PIECES,
            present == present_count(pieces@.take(i as int)),
            present <= i,
        decreases pieces@.len() - i,
    {
        assert(pieces@.take(i + 1).drop_last() =~= pieces@.take(i as int));
        if pieces[i].is_some() {
            present = present + 1;
        }
        i = i + 1;
    }
    assert(pieces@.take(pieces@.len() as int) =~= pieces@);
    if present >= NUM_RAW_RECORDS {
        Ok(())
    } else {
        Err(ImportError::Reconstruction { segment_index })
    }
}

} // verus!
