use better_folder_size::scan::{EntryKind, ScanEvent, ScanStats};

fn found(kind: EntryKind, len: u64) -> ScanEvent {
    ScanEvent::Found { kind, len }
}

#[test]
fn new_stats_are_zero() {
    let s = ScanStats::new();
    assert_eq!(s.total_bytes, 0);
    assert_eq!(s.file_count, 0);
    assert_eq!(s.dir_count, 0);
    assert_eq!(s.skipped_count, 0);
    assert_eq!(ScanStats::default(), s);
}

/// The tree of the original basic scan: file1.txt (10 B), sub1/ holding
/// file2.bin (100 B), and an empty sub2/.
#[test]
fn recording_a_small_tree() {
    let mut root = ScanStats::new();
    assert!(root.record(found(EntryKind::Dir, 4096)));
    assert!(root.record(found(EntryKind::Dir, 4096)));
    assert!(!root.record(found(EntryKind::File, 10)));
    let mut sub1 = ScanStats::new();
    assert!(!sub1.record(found(EntryKind::File, 100)));
    let sub2 = ScanStats::new();
    root.merge(&sub1);
    root.merge(&sub2);
    assert_eq!(root.file_count, 2);
    assert_eq!(root.dir_count, 2);
    assert_eq!(root.total_bytes, 110);
    assert_eq!(root.skipped_count, 0);
}

#[test]
fn links_are_counted_but_not_followed() {
    let mut s = ScanStats::new();
    assert!(!s.record(found(EntryKind::Symlink, 42)));
    assert_eq!(s.file_count, 1);
    assert_eq!(s.total_bytes, 42);
    assert_eq!(s.dir_count, 0);
    assert_eq!(EntryKind::classify(true, true), EntryKind::Symlink);
    assert_eq!(EntryKind::classify(true, false), EntryKind::Symlink);
    assert_eq!(EntryKind::classify(false, true), EntryKind::Dir);
    assert_eq!(EntryKind::classify(false, false), EntryKind::File);
}

#[test]
fn unreadable_items_are_skipped() {
    let mut s = ScanStats::new();
    assert!(!s.record(ScanEvent::Unreadable));
    assert!(!s.record(ScanEvent::Unreadable));
    assert_eq!(s.skipped_count, 2);
    assert_eq!(s.file_count, 0);
    assert_eq!(s.dir_count, 0);
    assert_eq!(s.total_bytes, 0);
}

#[test]
fn counters_wrap_around() {
    let mut s = ScanStats::new();
    s.record(found(EntryKind::File, u64::MAX));
    s.record(found(EntryKind::File, 2));
    assert_eq!(s.total_bytes, 1);
    assert_eq!(s.file_count, 2);
}

#[test]
fn split_scans_merge_to_the_whole() {
    let events = [
        found(EntryKind::File, 7),
        ScanEvent::Unreadable,
        found(EntryKind::Dir, 0),
        found(EntryKind::Symlink, 3),
        found(EntryKind::File, 1000),
    ];
    let mut whole = ScanStats::new();
    for e in events.iter() {
        whole.record(*e);
    }
    for cut in 0..=events.len() {
        let mut a = ScanStats::new();
        let mut b = ScanStats::new();
        for e in events[..cut].iter() {
            a.record(*e);
        }
        for e in events[cut..].iter() {
            b.record(*e);
        }
        let mut ab = a.clone();
        ab.merge(&b);
        let mut ba = b.clone();
        ba.merge(&a);
        assert_eq!(ab, whole);
        assert_eq!(ba, whole);
    }
    assert_eq!(whole.total_bytes, 1010);
    assert_eq!(whole.file_count, 3);
    assert_eq!(whole.dir_count, 1);
    assert_eq!(whole.skipped_count, 1);
}
