use dsn_sync::block_queue::{BlockOrigin, BlockQueue, DecodedBlock, Offer, QUEUED_BLOCKS_LIMIT};
use dsn_sync::errors::ImportError;

fn block(number: u32) -> DecodedBlock {
    DecodedBlock { number, bytes: vec![number as u8, 0xaa] }
}

fn genesis() -> Vec<u8> {
    block(0).bytes
}

fn numbers(blocks: &[DecodedBlock]) -> Vec<u32> {
    blocks.iter().map(|b| b.number).collect()
}

#[test]
fn known_blocks_are_passed_over() {
    let mut q = BlockQueue::new();
    assert!(matches!(q.offer(block(0), 5, &genesis()), Ok(Offer::Skipped)));
    assert!(matches!(q.offer(block(5), 5, &genesis()), Ok(Offer::Skipped)));
    assert_eq!(q.downloaded_blocks(), 0);
    assert!(q.finish_segment(false).is_empty());
}

#[test]
fn segment_without_new_blocks_does_not_end_the_run() {
    let mut q = BlockQueue::new();
    q.offer(block(3), 2, &genesis()).unwrap();
    assert_eq!(q.finish_segment(false).len(), 1);
    // a segment whose only block the node has already: nothing to hand over
    assert!(matches!(q.offer(block(3), 3, &genesis()), Ok(Offer::Skipped)));
    assert!(q.finish_segment(false).is_empty());
    // the next segment still gets its blocks through
    q.offer(block(4), 3, &genesis()).unwrap();
    q.offer(block(5), 3, &genesis()).unwrap();
    let subs = q.finish_segment(true);
    assert_eq!(subs.len(), 2);
    assert_eq!(numbers(&subs[0].blocks), vec![4]);
    assert_eq!(subs[1].origin, BlockOrigin::NetworkBroadcast);
    assert_eq!(numbers(&subs[1].blocks), vec![5]);
    assert_eq!(q.downloaded_blocks(), 3);
}

#[test]
fn different_genesis_is_a_mismatch() {
    let mut q = BlockQueue::new();
    let other = DecodedBlock { number: 0, bytes: vec![9, 9] };
    assert!(matches!(
        q.offer(other, 5, &genesis()),
        Err(ImportError::ChainMismatch { block_number: 0 })
    ));
}

#[test]
fn new_blocks_are_batched_and_counted() {
    let mut q = BlockQueue::new();
    for n in 0..=7u32 {
        let r = q.offer(block(n), 4, &genesis());
        if n <= 4 {
            assert!(matches!(r, Ok(Offer::Skipped)));
        } else {
            assert!(matches!(r, Ok(Offer::Queued)));
        }
    }
    assert_eq!(q.downloaded_blocks(), 3);
    let subs = q.finish_segment(false);
    assert_eq!(subs.len(), 1);
    assert_eq!(subs[0].origin, BlockOrigin::NetworkInitialSync);
    assert_eq!(numbers(&subs[0].blocks), vec![5, 6, 7]);
}

#[test]
fn last_segment_hands_over_its_final_block_alone() {
    let mut q = BlockQueue::new();
    for n in 1..=3u32 {
        q.offer(block(n), 0, &genesis()).unwrap();
    }
    let subs = q.finish_segment(true);
    assert_eq!(subs.len(), 2);
    assert_eq!(subs[0].origin, BlockOrigin::NetworkInitialSync);
    assert_eq!(numbers(&subs[0].blocks), vec![1, 2]);
    assert_eq!(subs[1].origin, BlockOrigin::NetworkBroadcast);
    assert_eq!(numbers(&subs[1].blocks), vec![3]);
    assert_eq!(subs[1].blocks[0].bytes, block(3).bytes);
}

#[test]
fn block_not_past_the_last_batched_is_out_of_order() {
    let mut q = BlockQueue::new();
    q.offer(block(3), 0, &genesis()).unwrap();
    assert!(matches!(
        q.offer(block(3), 0, &genesis()),
        Err(ImportError::BlockOutOfOrder { block_number: 3 })
    ));
    assert!(matches!(
        q.offer(block(2), 0, &genesis()),
        Err(ImportError::BlockOutOfOrder { block_number: 2 })
    ));
}

#[test]
fn block_too_far_ahead_flushes_then_only_waits() {
    let mut q = BlockQueue::new();
    let best = 10u32;
    for n in 11..(best + QUEUED_BLOCKS_LIMIT) {
        assert!(matches!(q.offer(block(n), best, &genesis()), Ok(Offer::Queued)));
    }
    let ahead = best + QUEUED_BLOCKS_LIMIT;
    let waiting = match q.offer(block(ahead), best, &genesis()) {
        Ok(Offer::Wait { block, flushed: Some(sub) }) => {
            assert_eq!(sub.origin, BlockOrigin::NetworkInitialSync);
            assert_eq!(sub.blocks.len(), (QUEUED_BLOCKS_LIMIT - 1) as usize);
            assert_eq!(sub.blocks[0].number, 11);
            block
        }
        _ => panic!("expected a flush and a wait"),
    };
    assert_eq!(waiting.number, ahead);
    // the best block has not moved: nothing more is handed over
    let again = match q.offer(waiting, best, &genesis()) {
        Ok(Offer::Wait { block, flushed: None }) => block,
        _ => panic!("expected a bare wait"),
    };
    // once it moves, the block is batched
    assert!(matches!(q.offer(again, best + 1, &genesis()), Ok(Offer::Queued)));
    assert_eq!(q.downloaded_blocks(), QUEUED_BLOCKS_LIMIT as u64);
}

#[test]
fn submissions_are_increasing_across_segments() {
    let mut q = BlockQueue::new();
    let mut handed = Vec::new();
    for segment in 0..3u32 {
        for n in (segment * 10 + 1)..=(segment * 10 + 10) {
            q.offer(block(n), 0, &genesis()).unwrap();
        }
        for s in q.finish_segment(segment == 2) {
            handed.extend(numbers(&s.blocks));
        }
    }
    assert_eq!(handed, (1..=30).collect::<Vec<u32>>());
}
