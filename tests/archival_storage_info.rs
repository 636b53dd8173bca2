use cuckoofilter::CuckooFilter;
use dsn_sync::archival_storage_info::{
    ArchivalStorageInfo, CuckooFilterDTO, PeerId, CONNECTED_PEERS_NUMBER_LIMIT,
};
use std::collections::hash_map::DefaultHasher;

fn dto_with(pieces: &[u64]) -> CuckooFilterDTO {
    let mut filter: CuckooFilter<DefaultHasher> = CuckooFilter::with_capacity(4096);
    for piece in pieces {
        filter.add(piece).unwrap();
    }
    let exported = filter.export();
    CuckooFilterDTO { values: exported.values, length: exported.length as u64 }
}

fn peer(n: u32) -> PeerId {
    PeerId::new(n.to_be_bytes().to_vec())
}

#[test]
fn peer_reporting_a_piece_is_found() {
    let mut info = ArchivalStorageInfo::new();
    info.update_cuckoo_filter(peer(1), &dto_with(&[10, 11]));
    info.update_cuckoo_filter(peer(2), &dto_with(&[20]));
    assert_eq!(info.peers_contain_piece(10), vec![peer(1)]);
    assert_eq!(info.peers_contain_piece(20), vec![peer(2)]);
    assert!(info.peers_contain_piece(999_999).is_empty());
}

#[test]
fn update_replaces_a_peers_filter() {
    let mut info = ArchivalStorageInfo::new();
    info.update_cuckoo_filter(peer(1), &dto_with(&[10]));
    info.update_cuckoo_filter(peer(1), &dto_with(&[30]));
    assert_eq!(info.len(), 1);
    assert!(info.peers_contain_piece(10).is_empty());
    assert_eq!(info.peers_contain_piece(30), vec![peer(1)]);
}

#[test]
fn peers_are_listed_in_tracking_order() {
    let mut info = ArchivalStorageInfo::new();
    info.update_cuckoo_filter(peer(3), &dto_with(&[7]));
    info.update_cuckoo_filter(peer(1), &dto_with(&[7]));
    info.update_cuckoo_filter(peer(2), &dto_with(&[8]));
    assert_eq!(info.peers_contain_piece(7), vec![peer(3), peer(1)]);
    assert_eq!(info.peer_ids(), vec![peer(3), peer(1), peer(2)]);
}

#[test]
fn empty_filter_reports_nothing() {
    let mut info = ArchivalStorageInfo::new();
    info.update_cuckoo_filter(peer(1), &CuckooFilterDTO { values: Vec::new(), length: 0 });
    assert_eq!(info.len(), 1);
    assert!(info.peers_contain_piece(0).is_empty());
}

#[test]
fn remove_peer_filter_says_whether_it_was_tracked() {
    let mut info = ArchivalStorageInfo::new();
    info.update_cuckoo_filter(peer(1), &dto_with(&[10]));
    assert!(info.remove_peer_filter(&peer(1)));
    assert!(!info.remove_peer_filter(&peer(1)));
    assert_eq!(info.len(), 0);
    assert!(info.peers_contain_piece(10).is_empty());
}

#[test]
fn fifty_first_peer_leaves_fifty_tracked() {
    let mut info = ArchivalStorageInfo::new();
    for n in 0..50u32 {
        info.update_cuckoo_filter(peer(n), &dto_with(&[n as u64]));
    }
    assert_eq!(info.len(), CONNECTED_PEERS_NUMBER_LIMIT);
    info.update_cuckoo_filter(peer(50), &dto_with(&[50]));
    assert_eq!(info.len(), 50);
    let kept = info.peer_ids();
    let all: Vec<PeerId> = (0..51u32).map(peer).collect();
    let evicted: Vec<&PeerId> = all.iter().filter(|p| !kept.contains(p)).collect();
    assert_eq!(evicted.len(), 1);
}

#[test]
fn eviction_is_the_same_for_the_same_updates() {
    let run = || {
        let mut info = ArchivalStorageInfo::new();
        for n in 0..60u32 {
            info.update_cuckoo_filter(peer(n), &dto_with(&[n as u64]));
        }
        info.peer_ids()
    };
    let first = run();
    assert_eq!(first.len(), 50);
    assert_eq!(first, run());
}

#[test]
fn update_of_tracked_peer_at_limit_evicts_nobody() {
    let mut info = ArchivalStorageInfo::new();
    for n in 0..50u32 {
        info.update_cuckoo_filter(peer(n), &dto_with(&[n as u64]));
    }
    let before = info.peer_ids();
    info.update_cuckoo_filter(peer(7), &dto_with(&[700]));
    assert_eq!(info.peer_ids(), before);
    assert_eq!(info.peers_contain_piece(700), vec![peer(7)]);
}

fn full_index() -> ArchivalStorageInfo {
    let mut info = ArchivalStorageInfo::new();
    for n in 0..50u32 {
        info.update_cuckoo_filter(peer(n), &dto_with(&[n as u64]));
    }
    info
}

#[test]
fn draw_picks_the_evicted_peer() {
    let mut info = full_index();
    info.update_cuckoo_filter_with_draw(peer(50), &dto_with(&[50]), 0);
    let expected: Vec<PeerId> = (1..51u32).map(peer).collect();
    assert_eq!(info.peer_ids(), expected);

    let mut info = full_index();
    info.update_cuckoo_filter_with_draw(peer(50), &dto_with(&[50]), 7);
    let expected: Vec<PeerId> = (0..51u32).filter(|n| *n != 7).map(peer).collect();
    assert_eq!(info.peer_ids(), expected);
}

#[test]
fn draw_may_evict_the_newcomer() {
    let mut info = full_index();
    let before = info.peer_ids();
    info.update_cuckoo_filter_with_draw(peer(50), &dto_with(&[50]), 50);
    assert_eq!(info.peer_ids(), before);
    assert!(info.peers_contain_piece(50).is_empty());
}

#[test]
fn draw_is_ignored_below_the_limit() {
    let mut info = ArchivalStorageInfo::new();
    info.update_cuckoo_filter_with_draw(peer(1), &dto_with(&[1]), 0);
    info.update_cuckoo_filter_with_draw(peer(2), &dto_with(&[2]), 0);
    assert_eq!(info.peer_ids(), vec![peer(1), peer(2)]);
}
