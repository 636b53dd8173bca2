//! Decoded blocks on their way to the import queue. Blocks the node has are
//! passed over (the genesis block is compared byte for byte), the others are
//! batched in increasing order, and the batch is handed over whenever the next
//! block runs `QUEUED_BLOCKS_LIMIT` or more ahead of the best imported block: the
//! caller then waits and offers the block again.
use crate::errors::ImportError;
use crate::segments::{needs_import, SegmentHeader};
use vstd::prelude::*;

verus! {

/// How far the next block may run ahead of the best imported block.
pub const QUEUED_BLOCKS_LIMIT: u32 = 2048;

/// How long to wait for the import queue before looking at the best block again.
pub const WAIT_FOR_BLOCKS_TO_IMPORT_MS: u64 = 1000;

/// How the import queue is to treat a batch.
#[derive(Debug, Clone, Copy, PartialEq, Eq, Structural)]
pub enum BlockOrigin {
    /// Bulk import of history.
    NetworkInitialSync,
    /// The block where bulk import ends and regular sync takes over.
    NetworkBroadcast,
}

/// A block as decoded from a segment: its number and its encoded bytes.
#[derive(Debug, Clone)]
pub struct DecodedBlock {
    pub number: u32,
    pub bytes: Vec<u8>,
}

pub type BlockView = (u32, Seq<u8>);

impl View for DecodedBlock {
    type V = BlockView;

    open spec fn view(&self) -> BlockView {
        (self.number, self.bytes@)
    }
}

pub open spec fn blocks_view(b: Seq<DecodedBlock>) -> Seq<BlockView> {
    b.map_values(|x: DecodedBlock| x@)
}

/// A batch for the import queue.
#[derive(Debug)]
pub struct Submission {
    pub origin: BlockOrigin,
    pub blocks: Vec<DecodedBlock>,
}

impl View for Submission {
    type V = (BlockOrigin, Seq<BlockView>);

    open spec fn view(&self) -> (BlockOrigin, Seq<BlockView>) {
        (self.origin, blocks_view(self.blocks@))
    }
}

pub open spec fn submissions_view(s: Seq<Submission>) -> Seq<(BlockOrigin, Seq<BlockView>)> {
    s.map_values(|x: Submission| x@)
}

/// What became of an offered block.
#[derive(Debug)]
pub enum Offer {
    /// The node has the block already.
    Skipped,
    /// The block joined the batch.
    Queued,
    /// The block runs too far ahead: hand over `flushed`, if any, wait
    /// `WAIT_FOR_BLOCKS_TO_IMPORT_MS`, and offer `block` again with the new best
    /// block number.
    Wait { block: DecodedBlock, flushed: Option<Submission> },
}

/// The state of the queue.
pub struct QueueModel {
    /// Batched, not yet handed over.
    pub batch: Seq<BlockView>,
    /// The numbers of all blocks handed over so far, in order.
    pub submitted: Seq<u32>,
    pub last_queued: Option<u32>,
    /// Blocks batched so far.
    pub downloaded: nat,
}

pub open spec fn numbers(b: Seq<BlockView>) -> Seq<u32> {
    b.map_values(|x: BlockView| x.0)
}

pub open spec fn strictly_increasing(s: Seq<u32>) -> bool {
    forall|i: int, j: int| 0 <= i < j < s.len() ==> s[i] < s[j]
}

/// Every block handed over or batched, in order.
pub open spec fn all_queued(q: QueueModel) -> Seq<u32> {
    q.submitted + numbers(q.batch)
}

pub open spec fn queue_ok(q: QueueModel) -> bool {
    &&& strictly_increasing(all_queued(q))
    &&& q.downloaded == all_queued(q).len()
    &&& if all_queued(q).len() == 0 {
        q.last_queued is None
    } else {
        q.last_queued == Some(all_queued(q).last())
    }
    &&& q.last_queued matches Some(l) ==> q.downloaded <= l + 1
}

/// How an offered block is handled.
#[derive(Debug, Clone, Copy, PartialEq, Eq, Structural)]
pub enum Verdict {
    Skip,
    Mismatch,
    OutOfOrder,
    Wait,
    Queue,
}

/// A block at or below the best block is passed over, but a genesis block that
/// differs from the node's is a mismatch; a block not past the last batched one
/// is out of order; one `QUEUED_BLOCKS_LIMIT` or more ahead of the best block
/// waits; the rest is batched.
pub open spec fn verdict(q: QueueModel, number: u32, bytes: Seq<u8>, best: u32, genesis: Seq<u8>) -> Verdict {
    if number <= best {
        if number == 0 && bytes != genesis {
            Verdict::Mismatch
        } else {
            Verdict::Skip
        }
    } else if q.last_queued matches Some(l) && number <= l {
        Verdict::OutOfOrder
    } else if number - best >= QUEUED_BLOCKS_LIMIT {
        Verdict::Wait
    } else {
        Verdict::Queue
    }
}

pub open spec fn after_offer(q: QueueModel, number: u32, bytes: Seq<u8>, best: u32, genesis: Seq<u8>) -> QueueModel {
    match verdict(q, number, bytes, best, genesis) {
        Verdict::Wait => QueueModel { batch: Seq::empty(), submitted: q.submitted + numbers(q.batch), ..q },
        Verdict::Queue => QueueModel {
            batch: q.batch.push((number, bytes)),
            last_queued: Some(number),
            downloaded: q.downloaded + 1,
            ..q
        },
        _ => q,
    }
}

/// The batches a segment's end hands over: the whole batch, or on the last
/// segment all but the final block for bulk import and the final block alone as
/// the hand-off to regular sync.
pub open spec fn final_batches(batch: Seq<BlockView>, is_last_segment: bool) -> Seq<(BlockOrigin, Seq<BlockView>)> {
    if is_last_segment {
        seq![
            (BlockOrigin::NetworkInitialSync, batch.drop_last()),
            (BlockOrigin::NetworkBroadcast, seq![batch.last()]),
        ]
    } else {
        seq![(BlockOrigin::NetworkInitialSync, batch)]
    }
}

/// The batches a segment's end hands over: none when the segment batched no
/// block, and the run goes on with the next segment either way.
pub open spec fn segment_batches(batch: Seq<BlockView>, is_last_segment: bool) -> Seq<(BlockOrigin, Seq<BlockView>)> {
    if batch.len() == 0 {
        Seq::empty()
    } else {
        final_batches(batch, is_last_segment)
    }
}

pub open spec fn after_segment(q: QueueModel) -> QueueModel {
    if q.batch.len() == 0 {
        q
    } else {
        QueueModel { batch: Seq::empty(), submitted: q.submitted + numbers(q.batch), ..q }
    }
}

/// Whether two byte strings are equal.
pub fn bytes_equal(a: &Vec<u8>, b: &Vec<u8>) -> (r: bool)
    ensures
        r == (a@ == b@),
{
    if a.len() != b.len() {
        return false;
    }
    let mut i: usize = 0;
    while i < a.len()
        invariant
            i <= a@.len(),
            a@.len() == b@.len(),
            forall|j: int| 0 <= j < i ==> a@[j] == b@[j],
        decreases a@.len() - i,
    {
        if a[i] != b[i] {
            return false;
        }
        i = i + 1;
    }
    assert(a@ =~= b@);
    true
}

proof fn lemma_numbers_push(b: Seq<BlockView>, x: BlockView)
    ensures
        numbers(b.push(x)) == numbers(b).push(x.0),
{
    assert(numbers(b.push(x)) =~= numbers(b).push(x.0));
}

/// Decoded blocks waiting for the import queue, and the count of blocks batched
/// in this run.
pub struct BlockQueue {
    batch: Vec<DecodedBlock>,
    last_queued: Option<u32>,
    downloaded: u64,
    submitted: Ghost<Seq<u32>>,
}

impl View for BlockQueue {
    type V = QueueModel;

    closed spec fn view(&self) -> QueueModel {
        QueueModel {
            batch: blocks_view(self.batch@),
            submitted: self.submitted@,
            last_queued: self.last_queued,
            downloaded: self.downloaded as nat,
        }
    }
}

impl BlockQueue {
    pub open spec fn well_formed(&self) -> bool {
        queue_ok(self@)
    }

    pub fn new() -> (r: BlockQueue)
        ensures
            r.well_formed(),
            r@.batch.len() == 0,
            r@.submitted.len() == 0,
            r@.downloaded == 0,
    {
        let r = BlockQueue { batch: Vec::new(), last_queued: None, downloaded: 0, submitted: Ghost(Seq::empty()) };
        assert(all_queued(r@) =~= Seq::<u32>::empty());
        r
    }

    /// The number of blocks batched in this run.
    pub fn downloaded_blocks(&self) -> (r: u64)
        ensures
            r == self@.downloaded,
    {
        self.downloaded
    }

    /// Offers the next decoded block, given the best imported block number and the
    /// node's encoded genesis block.
    pub fn offer(&mut self, block: DecodedBlock, best: u32, genesis: &Vec<u8>) -> (r: Result<Offer, ImportError>)
        requires
            old(self).well_formed(),
        ensures
            final(self).well_formed(),
            final(self)@ == after_offer(old(self)@, block.number, block.bytes@, best, genesis@),
            verdict(old(self)@, block.number, block.bytes@, best, genesis@) == Verdict::Mismatch <==> r
                == Err::<Offer, ImportError>(ImportError::ChainMismatch { block_number: 0 }),
            verdict(old(self)@, block.number, block.bytes@, best, genesis@) == Verdict::OutOfOrder <==> r
                == Err::<Offer, ImportError>(ImportError::BlockOutOfOrder { block_number: block.number }),
            verdict(old(self)@, block.number, block.bytes@, best, genesis@) == Verdict::Skip <==> r matches Ok(
                Offer::Skipped,
            ),
            verdict(old(self)@, block.number, block.bytes@, best, genesis@) == Verdict::Queue <==> r matches Ok(
                Offer::Queued,
            ),
            verdict(old(self)@, block.number, block.bytes@, best, genesis@) == Verdict::Wait <==> r matches Ok(
                Offer::Wait { .. },
            ),
            r matches Ok(Offer::Wait { block: b, flushed: f }) ==> b@ == block@ && (old(self)@.batch.len()
                == 0 <==> f is None) && (f matches Some(s) ==> s@ == (
                BlockOrigin::NetworkInitialSync,
                old(self)@.batch,
            )),
    {
        let ghost q = self@;
        let number = block.number;
        if number <= best {
            if number == 0 && !bytes_equal(&block.bytes, genesis) {
                return Err(ImportError::ChainMismatch { block_number: 0 });
            }
            return Ok(Offer::Skipped);
        }
        if let Some(l) = self.last_queued {
            if number <= l {
                return Err(ImportError::BlockOutOfOrder { block_number: number });
            }
        }
        if number - best >= QUEUED_BLOCKS_LIMIT {
            let flushed = if self.batch.len() > 0 {
                let blocks = self.batch.split_off(0);
                self.submitted = Ghost(q.submitted + numbers(q.batch));
                Some(Submission { origin: BlockOrigin::NetworkInitialSync, blocks })
            } else {
                assert(q.submitted + numbers(q.batch) =~= q.submitted);
                None
            };
            assert(self@.batch =~= Seq::<BlockView>::empty());
            assert(all_queued(self@) =~= all_queued(q));
            return Ok(Offer::Wait { block, flushed });
        }
        let ghost bv = block@;
        self.batch.push(block);
        self.last_queued = Some(number);
        self.downloaded = self.downloaded + 1;
        proof {
            assert(blocks_view(self.batch@) =~= q.batch.push(bv));
            lemma_numbers_push(q.batch, bv);
            assert(all_queued(self@) =~= all_queued(q).push(number));
        }
        Ok(Offer::Queued)
    }

    /// Ends a segment: hands over the batch, with the final block on its own on
    /// the last segment. A segment that batched nothing hands over nothing.
    pub fn finish_segment(&mut self, is_last_segment: bool) -> (r: Vec<Submission>)
        requires
            old(self).well_formed(),
        ensures
            final(self).well_formed(),
            final(self)@ == after_segment(old(self)@),
            submissions_view(r@) == segment_batches(old(self)@.batch, is_last_segment),
    {
        let ghost q = self@;
        if self.batch.len() == 0 {
            let none: Vec<Submission> = Vec::new();
            assert(submissions_view(none@) =~= Seq::<(BlockOrigin, Seq<BlockView>)>::empty());
            return none;
        }
        let mut blocks = self.batch.split_off(0);
        assert(blocks_view(blocks@) =~= q.batch);
        self.submitted = Ghost(q.submitted + numbers(q.batch));
        assert(self@.batch =~= Seq::<BlockView>::empty());
        assert(all_queued(self@) =~= all_queued(q));
        let mut subs: Vec<Submission> = Vec::new();
        if is_last_segment {
            let last = blocks.pop().unwrap();
            assert(blocks_view(blocks@) =~= q.batch.drop_last());
            let first = Submission { origin: BlockOrigin::NetworkInitialSync, blocks };
            assert(first@ == (BlockOrigin::NetworkInitialSync, q.batch.drop_last()));
            subs.push(first);
            let mut tail: Vec<DecodedBlock> = Vec::new();
            tail.push(last);
            assert(blocks_view(tail@) =~= seq![q.batch.last()]);
            let second = Submission { origin: BlockOrigin::NetworkBroadcast, blocks: tail };
            assert(second@ == (BlockOrigin::NetworkBroadcast, seq![q.batch.last()]));
            subs.push(second);
        } else {
            let only = Submission { origin: BlockOrigin::NetworkInitialSync, blocks };
            assert(only@ == (BlockOrigin::NetworkInitialSync, q.batch));
            subs.push(only);
        }
        assert(submissions_view(subs@) =~= final_batches(q.batch, is_last_segment));
        subs
    }
}

/// Blocks reach the import queue in strictly increasing order over the whole run:
/// every hand-over appends its batch to `submitted`, and a well-formed queue keeps
/// `submitted` strictly increasing.
pub proof fn lemma_submissions_in_order(q: QueueModel, number: u32, bytes: Seq<u8>, best: u32, genesis: Seq<u8>)
    requires
        queue_ok(q),
    ensures
        strictly_increasing(q.submitted),
        queue_ok(after_offer(q, number, bytes, best, genesis)),
        queue_ok(after_segment(q)),
        strictly_increasing(after_offer(q, number, bytes, best, genesis).submitted),
        strictly_increasing(after_segment(q).submitted),
{
    lemma_offer_keeps_order(q, number, bytes, best, genesis);
    assert(after_segment(q).submitted + numbers(after_segment(q).batch) =~= all_queued(q));
    assert forall|i: int, j: int| 0 <= i < j < q.submitted.len() implies q.submitted[i] < q.submitted[j] by {
        assert(all_queued(q)[i] == q.submitted[i]);
        assert(all_queued(q)[j] == q.submitted[j]);
    }
    let s = after_segment(q);
    let o = after_offer(q, number, bytes, best, genesis);
    assert forall|i: int, j: int| 0 <= i < j < s.submitted.len() implies s.submitted[i] < s.submitted[j] by {
        assert(all_queued(s)[i] == s.submitted[i]);
        assert(all_queued(s)[j] == s.submitted[j]);
    }
    assert forall|i: int, j: int| 0 <= i < j < o.submitted.len() implies o.submitted[i] < o.submitted[j] by {
        assert(all_queued(o)[i] == o.submitted[i]);
        assert(all_queued(o)[j] == o.submitted[j]);
    }
}

proof fn lemma_offer_keeps_order(q: QueueModel, number: u32, bytes: Seq<u8>, best: u32, genesis: Seq<u8>)
    requires
        queue_ok(q),
    ensures
        queue_ok(after_offer(q, number, bytes, best, genesis)),
{
    let o = after_offer(q, number, bytes, best, genesis);
    match verdict(q, number, bytes, best, genesis) {
        Verdict::Wait => {
            assert(all_queued(o) =~= all_queued(q));
        },
        Verdict::Queue => {
            lemma_numbers_push(q.batch, (number, bytes));
            assert(all_queued(o) =~= all_queued(q).push(number));
        },
        _ => {},
    }
}

/// While the best block stays where it is, a block `QUEUED_BLOCKS_LIMIT` or more
/// ahead of it stops the queue: the first offer hands over the batch, and every
/// further offer of it hands over nothing, batches nothing and leaves the queue as
/// it is, so the caller can only wait and look at the best block again.
pub proof fn lemma_backpressure(q: QueueModel, number: u32, bytes: Seq<u8>, best: u32, genesis: Seq<u8>)
    requires
        queue_ok(q),
        verdict(q, number, bytes, best, genesis) == Verdict::Wait,
    ensures
        after_offer(q, number, bytes, best, genesis).batch.len() == 0,
        verdict(after_offer(q, number, bytes, best, genesis), number, bytes, best, genesis) == Verdict::Wait,
        after_offer(after_offer(q, number, bytes, best, genesis), number, bytes, best, genesis) == after_offer(
            q,
            number,
            bytes,
            best,
            genesis,
        ),
{
    let o = after_offer(q, number, bytes, best, genesis);
    assert(o.batch.len() == 0);
    assert(numbers(o.batch) =~= Seq::<u32>::empty());
    assert(o.submitted + numbers(o.batch) =~= o.submitted);
}

/// Every block of `blocks` offered in turn against a fixed best block; `None` when
/// one of them is refused.
pub open spec fn offered_all(q: QueueModel, blocks: Seq<BlockView>, best: u32, genesis: Seq<u8>) -> Option<QueueModel>
    decreases blocks.len(),
{
    if blocks.len() == 0 {
        Some(q)
    } else {
        match offered_all(q, blocks.drop_last(), best, genesis) {
            None => None,
            Some(p) => {
                let b = blocks.last();
                match verdict(p, b.0, b.1, best, genesis) {
                    Verdict::Mismatch => None,
                    Verdict::OutOfOrder => None,
                    _ => Some(after_offer(p, b.0, b.1, best, genesis)),
                }
            },
        }
    }
}

/// Running again over history the node already has imports nothing and finds no
/// mismatch: every segment whose last block is at or below the best block is
/// passed over without fetching, and blocks at or below the best block, the
/// node's own genesis block included, leave the queue as it was.
pub proof fn lemma_rerun_imports_nothing(
    q: QueueModel,
    headers: Seq<SegmentHeader>,
    blocks: Seq<BlockView>,
    best: u32,
    genesis: Seq<u8>,
)
    requires
        forall|i: int| 0 <= i < headers.len() ==> (#[trigger] headers[i]).last_archived_block.number <= best,
        forall|i: int| 0 <= i < blocks.len() ==> (#[trigger] blocks[i]).0 <= best,
        forall|i: int| 0 <= i < blocks.len() && (#[trigger] blocks[i]).0 == 0 ==> blocks[i].1 == genesis,
    ensures
        forall|i: int|
            0 <= i < headers.len() ==> !needs_import(#[trigger] headers[i], best, true) && !needs_import(
                headers[i],
                best,
                false,
            ),
        offered_all(q, blocks, best, genesis) == Some(q),
    decreases blocks.len(),
{
    if blocks.len() > 0 {
        let rest = blocks.drop_last();
        assert forall|i: int| 0 <= i < rest.len() implies (#[trigger] rest[i]).0 <= best by {
            assert(rest[i] == blocks[i]);
        }
        assert forall|i: int| 0 <= i < rest.len() && (#[trigger] rest[i]).0 == 0 implies rest[i].1 == genesis by {
            assert(rest[i] == blocks[i]);
        }
        lemma_rerun_imports_nothing(q, Seq::empty(), rest, best, genesis);
        assert(blocks.last() == blocks[blocks.len() - 1]);
    }
}

} // verus!
