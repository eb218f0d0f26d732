use compactor::folder::{FileInfo, FileKind, FolderInfo, GroupInfo};

fn file(path: &str, logical_size: u64, physical_size: u64) -> FileInfo {
    FileInfo { path: path.to_string(), logical_size, physical_size }
}

#[test]
fn new_folder_is_empty() {
    let folder = FolderInfo::new("root");
    assert_eq!(folder.path(), "root");
    assert_eq!(folder.logical_size(), 0);
    assert_eq!(folder.physical_size(), 0);
    assert_eq!(folder.len(FileKind::Compressible), 0);
    assert_eq!(folder.len(FileKind::Compressed), 0);
    assert_eq!(folder.len(FileKind::Skipped), 0);
    let summary = folder.summary();
    assert_eq!(summary.logical_size, 0);
    assert_eq!(summary.compressible.count, 0);
}

#[test]
fn group_totals_follow_push_and_pop() {
    let mut group = GroupInfo::new();
    group.push(file("a", 10, 4));
    group.push(file("b", 20, 20));
    group.push(file("c", 30, 7));
    let s = group.summary();
    assert_eq!((s.count, s.logical_size, s.physical_size), (3, 60, 31));

    let first = group.pop().unwrap();
    assert_eq!(first.path, "a");
    let s = group.summary();
    assert_eq!((s.count, s.logical_size, s.physical_size), (2, 50, 27));

    group.push(file("d", 1, 1));
    assert_eq!(group.pop().unwrap().path, "b");
    assert_eq!(group.pop().unwrap().path, "c");
    assert_eq!(group.pop().unwrap().path, "d");
    let s = group.summary();
    assert_eq!((s.count, s.logical_size, s.physical_size), (0, 0, 0));
    assert!(group.pop().is_none());
    assert_eq!(group.logical_size(), 0);
    assert_eq!(group.physical_size(), 0);
}

#[test]
fn group_front_is_the_oldest() {
    let mut group = GroupInfo::new();
    assert!(group.front().is_none());
    group.push(file("a", 1, 1));
    group.push(file("b", 2, 2));
    assert_eq!(group.front().unwrap().path, "a");
    assert_eq!(group.len(), 2);
}

#[test]
fn folder_totals_are_the_sums_of_its_buckets() {
    let mut folder = FolderInfo::new("root");
    folder.push(FileKind::Compressible, file("a", 100, 100));
    folder.push(FileKind::Compressed, file("b", 200, 50));
    folder.push(FileKind::Skipped, file("c", 7, 7));
    folder.push(FileKind::Compressible, file("d", 1000, 1000));

    let s = folder.summary();
    assert_eq!(s.logical_size, 1307);
    assert_eq!(s.physical_size, 1157);
    assert_eq!((s.compressible.count, s.compressible.logical_size, s.compressible.physical_size), (2, 1100, 1100));
    assert_eq!((s.compressed.count, s.compressed.logical_size, s.compressed.physical_size), (1, 200, 50));
    assert_eq!((s.skipped.count, s.skipped.logical_size, s.skipped.physical_size), (1, 7, 7));

    let popped = folder.pop(FileKind::Compressible).unwrap();
    assert_eq!(popped.path, "a");
    assert_eq!(folder.logical_size(), 1207);
    assert_eq!(folder.physical_size(), 1057);
    assert_eq!(folder.len(FileKind::Compressible), 1);
    assert_eq!(folder.front(FileKind::Compressible).unwrap().path, "d");

    assert!(folder.pop(FileKind::Skipped).is_some());
    assert!(folder.pop(FileKind::Skipped).is_none());
    assert_eq!(folder.logical_size(), 1200);
    assert_eq!(folder.physical_size(), 1050);
}

#[test]
fn can_push_refuses_what_the_totals_cannot_hold() {
    let mut folder = FolderInfo::new("root");
    folder.push(FileKind::Skipped, file("big", u64::MAX - 5, 1));
    assert!(folder.can_push(&file("fits", 5, u64::MAX - 1)));
    assert!(!folder.can_push(&file("too long", 6, 0)));
    assert!(!folder.can_push(&file("too large", 0, u64::MAX)));
}

#[test]
fn default_group_is_empty() {
    let group = GroupInfo::default();
    assert_eq!(group.len(), 0);
    let s = group.summary();
    assert_eq!((s.count, s.logical_size, s.physical_size), (0, 0, 0));
}
