use procd::inspect::{child_tree, ProcInfo};

fn p(pid: u32, parent: Option<u32>, memory: u64, live: bool) -> ProcInfo {
    ProcInfo { pid, parent, memory, live }
}

#[test]
fn tree_collects_live_descendants() {
    let table = vec![
        p(1, None, 1000, true),
        p(30, Some(20), 3, true),
        p(10, Some(1), 10, true),
        p(20, Some(10), 20, true),
        p(21, Some(10), 21, false),
        p(40, Some(21), 40, true),
        p(50, Some(2), 50, true),
    ];
    let (pids, memory) = child_tree(&table, 10);
    assert_eq!(pids, vec![30, 20]);
    assert_eq!(memory, 23);
    let (pids, memory) = child_tree(&table, 1);
    assert_eq!(pids, vec![30, 10, 20]);
    assert_eq!(memory, 33);
    let (pids, memory) = child_tree(&table, 99);
    assert!(pids.is_empty());
    assert_eq!(memory, 0);
}

#[test]
fn tree_memory_saturates() {
    let table = vec![p(2, Some(1), u64::MAX, true), p(3, Some(2), 5, true)];
    assert_eq!(child_tree(&table, 1), (vec![2, 3], u64::MAX));
}

#[test]
fn tree_ends_on_a_cycle() {
    let table = vec![p(2, Some(3), 1, true), p(3, Some(2), 1, true), p(4, Some(1), 7, true)];
    assert_eq!(child_tree(&table, 1), (vec![4], 7));
    assert_eq!(child_tree(&table, 2), (vec![2, 3], 2));
}
