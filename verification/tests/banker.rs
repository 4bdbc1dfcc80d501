use os_kernel::task::banker::is_safe;

#[test]
fn everything_free_is_safe() {
    assert!(is_safe(&vec![1], &vec![vec![0]], &vec![vec![1]]));
}

#[test]
fn no_threads_are_safe() {
    assert!(is_safe(&vec![0, 0], &vec![], &vec![]));
}

#[test]
fn a_cycle_is_unsafe() {
    // each of two threads holds what the other needs
    let allocation = vec![vec![1, 0], vec![0, 1]];
    let need = vec![vec![0, 1], vec![1, 0]];
    assert!(!is_safe(&vec![0, 0], &allocation, &need));
    assert!(is_safe(&vec![1, 0], &allocation, &need));
}

#[test]
fn later_rows_can_unblock_earlier_ones() {
    // the order 2, 1, 0 is the only one
    let allocation = vec![vec![0, 0, 0], vec![0, 2, 0], vec![0, 0, 3]];
    let need = vec![vec![0, 2, 3], vec![0, 0, 3], vec![1, 0, 0]];
    assert!(is_safe(&vec![1, 0, 0], &allocation, &need));
    assert!(!is_safe(&vec![0, 0, 0], &allocation, &need));
}

#[test]
fn a_known_safe_state() {
    let allocation = vec![
        vec![0, 1, 0],
        vec![2, 0, 0],
        vec![3, 0, 2],
        vec![2, 1, 1],
        vec![0, 0, 2],
    ];
    let need = vec![
        vec![7, 4, 3],
        vec![1, 2, 2],
        vec![6, 0, 0],
        vec![0, 1, 1],
        vec![4, 3, 1],
    ];
    assert!(is_safe(&vec![3, 3, 2], &allocation, &need));
    assert!(!is_safe(&vec![0, 0, 2], &allocation, &need));
}
