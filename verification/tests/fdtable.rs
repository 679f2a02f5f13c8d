use agentfs::fdtable::{FdEntry, FdTable};

#[test]
fn fdtable_test_standard_fds() {
    let table = FdTable::new();

    assert_eq!(table.translate(0), Some(0)); // stdin
    assert_eq!(table.translate(1), Some(1)); // stdout
    assert_eq!(table.translate(2), Some(2)); // stderr
}

#[test]
fn fdtable_test_allocate() {
    let mut table = FdTable::new();

    let entry1 = FdEntry::Passthrough { kernel_fd: 100, flags: 0, path: None };
    let vfd1 = table.allocate(entry1);
    assert_eq!(vfd1, 3); // First non-standard FD
    assert_eq!(table.translate(3), Some(100));

    let entry2 = FdEntry::Passthrough { kernel_fd: 101, flags: 0, path: None };
    let vfd2 = table.allocate(entry2);
    assert_eq!(vfd2, 4);
    assert_eq!(table.translate(4), Some(101));
}

#[test]
fn fdtable_test_deallocate() {
    let mut table = FdTable::new();

    let entry = FdEntry::Passthrough { kernel_fd: 100, flags: 0, path: None };
    let vfd = table.allocate(entry);
    assert_eq!(table.translate(vfd), Some(100));

    let entry = table.deallocate(vfd);
    assert!(entry.is_some());
    assert_eq!(entry.unwrap().kernel_fd(), Some(100));

    assert_eq!(table.translate(vfd), None);
}

#[test]
fn fdtable_test_duplicate() {
    let mut table = FdTable::new();

    let entry = FdEntry::Passthrough { kernel_fd: 100, flags: 0, path: None };
    let vfd1 = table.allocate(entry);
    let vfd2 = table.duplicate(vfd1).unwrap();

    assert_ne!(vfd1, vfd2);
    assert_eq!(table.translate(vfd1), Some(100));
    assert_eq!(table.translate(vfd2), Some(100));
}

#[test]
fn fdtable_test_duplicate_at() {
    let mut table = FdTable::new();

    let entry = FdEntry::Passthrough { kernel_fd: 100, flags: 0, path: None };
    let vfd1 = table.allocate(entry);
    let result = table.duplicate_at(vfd1, 10);

    // Nothing stood at descriptor 10 before.
    assert!(result.is_none());
    assert_eq!(table.translate(10), Some(100));
}

#[test]
fn the_lowest_descriptor_after_placing() {
    let mut table = FdTable::new();
    let entry = |k| FdEntry::Passthrough { kernel_fd: k, flags: 0, path: None };
    // Placing an entry at 5 passes over 3 and 4; they are handed out next.
    assert!(table.allocate_at(5, entry(100)).is_none());
    assert_eq!(table.next_vfd(), 6);
    assert_eq!(table.allocate(entry(101)), 3);
    assert_eq!(table.allocate(entry(102)), 4);
    assert_eq!(table.allocate(entry(103)), 6);
    assert_eq!(table.translate(5), Some(100));
    // The same after a descriptor was handed out from a minimum.
    assert_eq!(table.allocate_min(10, entry(104)), 10);
    assert_eq!(table.allocate(entry(105)), 7);
    table.deallocate(4);
    assert_eq!(table.allocate_min(0, entry(106)), 4);
    assert_eq!(table.allocate_min(9, entry(107)), 9);
    assert_eq!(table.allocate(entry(108)), 8);
    assert_eq!(table.allocate(entry(109)), 11);
    assert!(table.has_room());
    assert!(!table.uses_file(0));
}
