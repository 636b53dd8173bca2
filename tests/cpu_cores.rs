use dsn_sync::cpu_cores::{parse_timekeeper_cpu_cores, CpuCoresError};
use std::collections::HashSet;

fn set(v: &[usize]) -> HashSet<usize> {
    v.iter().copied().collect()
}

#[test]
fn empty_text_gives_no_cores() {
    assert_eq!(parse_timekeeper_cpu_cores("").unwrap(), HashSet::new());
}

#[test]
fn single_cores() {
    assert_eq!(parse_timekeeper_cpu_cores("0,1").unwrap(), set(&[0, 1]));
}

#[test]
fn inclusive_range() {
    assert_eq!(parse_timekeeper_cpu_cores("0-3").unwrap(), set(&[0, 1, 2, 3]));
}

#[test]
fn cores_and_ranges_mixed() {
    assert_eq!(parse_timekeeper_cpu_cores("0,1,6-7").unwrap(), set(&[0, 1, 6, 7]));
}

#[test]
fn descending_range_is_empty() {
    assert_eq!(parse_timekeeper_cpu_cores("3-1").unwrap(), HashSet::new());
}

#[test]
fn overlapping_items_merge() {
    assert_eq!(parse_timekeeper_cpu_cores("2,1-3,3").unwrap(), set(&[1, 2, 3]));
}

#[test]
fn plus_sign_is_accepted() {
    assert_eq!(parse_timekeeper_cpu_cores("+5").unwrap(), set(&[5]));
}

#[test]
fn pieces_after_the_second_are_not_read() {
    assert_eq!(parse_timekeeper_cpu_cores("1-2-x").unwrap(), set(&[1, 2]));
}

#[test]
fn letters_are_refused() {
    assert_eq!(parse_timekeeper_cpu_cores("a"), Err(CpuCoresError::InvalidCoreNumber));
}

#[test]
fn empty_item_is_refused() {
    assert_eq!(parse_timekeeper_cpu_cores("1,,2"), Err(CpuCoresError::InvalidCoreNumber));
}

#[test]
fn trailing_comma_is_refused() {
    assert_eq!(parse_timekeeper_cpu_cores("1,"), Err(CpuCoresError::InvalidCoreNumber));
}

#[test]
fn negative_core_is_refused() {
    assert_eq!(parse_timekeeper_cpu_cores("-1"), Err(CpuCoresError::InvalidCoreNumber));
}

#[test]
fn bad_range_end_is_refused() {
    assert_eq!(parse_timekeeper_cpu_cores("1-"), Err(CpuCoresError::InvalidCoreNumber));
}

#[test]
fn core_past_usize_is_refused() {
    let too_big = format!("{}0", usize::MAX);
    assert_eq!(parse_timekeeper_cpu_cores(&too_big), Err(CpuCoresError::InvalidCoreNumber));
}

#[test]
fn largest_core_is_accepted() {
    let largest = format!("{}", usize::MAX);
    assert_eq!(parse_timekeeper_cpu_cores(&largest).unwrap(), set(&[usize::MAX]));
}
