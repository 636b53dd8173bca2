use dsn_sync::active_leaves::ActiveLeaves;

fn h(n: u8) -> [u8; 32] {
    [n; 32]
}

#[test]
fn new_block_is_processed_and_replaces_its_parent() {
    let mut leaves = ActiveLeaves::new();
    assert!(leaves.block_imported(h(1), h(0), 1));
    assert!(leaves.contains(&h(1)));
    assert!(leaves.block_imported(h(2), h(1), 2));
    assert!(leaves.contains(&h(2)));
    assert!(!leaves.contains(&h(1)));
    assert_eq!(leaves.len(), 1);
}

#[test]
fn known_block_is_not_processed_again() {
    let mut leaves = ActiveLeaves::new();
    assert!(leaves.block_imported(h(1), h(0), 1));
    assert!(!leaves.block_imported(h(1), h(0), 1));
    assert_eq!(leaves.len(), 1);
}

#[test]
fn forks_keep_both_tips() {
    let mut leaves = ActiveLeaves::new();
    leaves.block_imported(h(1), h(0), 1);
    leaves.block_imported(h(2), h(1), 2);
    leaves.block_imported(h(3), h(1), 2);
    assert!(leaves.contains(&h(2)));
    assert!(leaves.contains(&h(3)));
    assert_eq!(leaves.len(), 2);
}
