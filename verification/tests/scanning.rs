use compactor::background::ControlToken;
use compactor::config::Config;
use compactor::folder::{FileInfo, FileKind, FolderSummary};
use compactor::hashfilter::HashFilter;
use compactor::scan::{classify, Check, FolderScan};
use globset::GlobSet;

fn file(path: &str, logical_size: u64, physical_size: u64) -> FileInfo {
    FileInfo { path: path.to_string(), logical_size, physical_size }
}

#[test]
fn classification_follows_the_precedence_of_the_rules() {
    // Smaller on disk than long: compressed already, whatever else holds.
    assert_eq!(classify(10000, 4000, 0, false, false), FileKind::Compressed);
    assert_eq!(classify(100, 50, 1, true, true), FileKind::Compressed);
    // At most 4096 bytes long: skipped.
    assert_eq!(classify(4096, 4096, 0, false, false), FileKind::Skipped);
    assert_eq!(classify(0, 0, 0, false, false), FileKind::Skipped);
    assert_eq!(classify(4097, 4097, 0, false, false), FileKind::Compressible);
    // Read-only, system, temporary: skipped; hidden or compressed flags: not.
    assert_eq!(classify(50000, 50000, 1, false, false), FileKind::Skipped);
    assert_eq!(classify(50000, 50000, 4, false, false), FileKind::Skipped);
    assert_eq!(classify(50000, 50000, 256, false, false), FileKind::Skipped);
    assert_eq!(classify(50000, 50000, 2, false, false), FileKind::Compressible);
    assert_eq!(classify(50000, 50000, 2048, false, false), FileKind::Compressible);
    assert_eq!(classify(50000, 50000, 2 | 256, false, false), FileKind::Skipped);
    // Known not to compress, or excluded: skipped.
    assert_eq!(classify(50000, 50000, 0, true, false), FileKind::Skipped);
    assert_eq!(classify(50000, 50000, 0, false, true), FileKind::Skipped);
    // Larger on disk than long is not compressed.
    assert_eq!(classify(50000, 53248, 0, false, false), FileKind::Compressible);
}

#[test]
fn three_files_end_to_end() {
    let known = HashFilter::new();
    let mut scan = FolderScan::new("root", GlobSet::empty());
    assert_eq!(scan.visit("root/file1", file("file1", 10000, 4000), 0, &known), FileKind::Compressed);
    assert_eq!(scan.visit("root/file2", file("file2", 2000, 2000), 0, &known), FileKind::Skipped);
    assert_eq!(scan.visit("root/file3", file("file3", 50000, 50000), 0, &known), FileKind::Compressible);

    let info = scan.into_info();
    assert_eq!(info.len(FileKind::Compressed), 1);
    assert_eq!(info.len(FileKind::Skipped), 1);
    assert_eq!(info.len(FileKind::Compressible), 1);
    assert_eq!(info.front(FileKind::Compressed).unwrap().path, "file1");
    assert_eq!(info.front(FileKind::Skipped).unwrap().path, "file2");
    assert_eq!(info.front(FileKind::Compressible).unwrap().path, "file3");
    assert_eq!(info.logical_size(), 62000);
    assert_eq!(info.physical_size(), 56000);
    let s: FolderSummary = info.summary();
    assert_eq!(s.logical_size, 62000);
    assert_eq!(s.physical_size, 56000);
}

#[test]
fn known_and_excluded_files_are_skipped() {
    let mut known = HashFilter::new();
    known.insert("root/known.bin");
    let excludes = Config::default().globset().unwrap();
    let mut scan = FolderScan::new("root", excludes);
    assert_eq!(scan.visit("root/known.bin", file("known.bin", 50000, 50000), 0, &known), FileKind::Skipped);
    assert_eq!(scan.visit("root/movie.mkv", file("movie.mkv", 50000, 50000), 0, &known), FileKind::Skipped);
    assert_eq!(scan.visit("root/data.bin", file("data.bin", 50000, 50000), 0, &known), FileKind::Compressible);
    assert_eq!(scan.visit("root/small.mkv", file("small.mkv", 50000, 100), 0, &known), FileKind::Compressed);
    assert_eq!(scan.info().len(FileKind::Skipped), 2);
    assert_eq!(scan.info().logical_size(), 200000);
}

#[test]
fn visit_as_takes_the_answers_it_is_given() {
    let mut scan = FolderScan::new("root", GlobSet::empty());
    assert_eq!(scan.visit_as(file("a", 50000, 50000), 0, false, true), FileKind::Skipped);
    assert_eq!(scan.visit_as(file("b", 50000, 50000), 0, true, false), FileKind::Skipped);
    assert_eq!(scan.visit_as(file("c", 50000, 50000), 0, false, false), FileKind::Compressible);
    assert!(scan.can_visit(&file("d", 1, 1)));
    assert!(!scan.can_visit(&file("d", u64::MAX, 1)));
}

#[test]
fn cancelling_stops_the_scan_within_eight_files_and_keeps_what_was_found() {
    let known = HashFilter::new();
    let mut token: ControlToken<(String, FolderSummary)> = ControlToken::new();
    let mut scan = FolderScan::new("root", GlobSet::empty());
    let mut taken = 0;
    let mut after_cancel = 0;
    let mut stopped = false;
    for i in 0..100u64 {
        if i == 11 {
            token.cancel();
        }
        match scan.checkpoint(&token) {
            Check::Stop => {
                stopped = true;
                break;
            }
            Check::Wait => panic!("a cancelled job never waits"),
            Check::Go => {}
        }
        scan.visit(&format!("root/f{}", i), file(&format!("f{}", i), 10000, 10000), 0, &known);
        taken += 1;
        if token.is_cancelled() {
            after_cancel += 1;
        }
    }
    assert!(stopped);
    assert!(after_cancel <= 8);
    assert_eq!(taken, 16);
    let info = scan.into_info();
    assert_eq!(info.len(FileKind::Compressible), 16);
    assert_eq!(info.logical_size(), 160000);
}

#[test]
fn paused_scan_waits_at_a_checkpoint_only() {
    let known = HashFilter::new();
    let mut token: ControlToken<u8> = ControlToken::new();
    let mut scan = FolderScan::new("root", GlobSet::empty());
    token.pause();
    assert_eq!(scan.checkpoint(&token), Check::Wait);
    token.resume();
    assert_eq!(scan.checkpoint(&token), Check::Go);
    scan.visit("root/a", file("a", 1, 1), 0, &known);
    token.pause();
    for i in 1..8 {
        assert_eq!(scan.checkpoint(&token), Check::Go);
        scan.visit("root/a", file("a", 1, 1), 0, &known);
        assert_eq!(scan.info().len(FileKind::Skipped), i + 1);
    }
    assert_eq!(scan.checkpoint(&token), Check::Wait);
    token.cancel();
    assert_eq!(scan.checkpoint(&token), Check::Stop);
}

#[test]
fn status_is_due_at_a_checkpoint_after_fifty_milliseconds() {
    let known = HashFilter::new();
    let mut scan = FolderScan::new("root", GlobSet::empty());
    assert!(!scan.status_due(49));
    assert!(scan.status_due(50));
    assert!(scan.status_due(5000));
    scan.visit("root/a", file("a", 10, 10), 0, &known);
    assert!(!scan.status_due(5000));
    let (path, summary) = scan.status("a");
    assert_eq!(path, "a");
    assert_eq!(summary.logical_size, 10);
    assert_eq!(summary.skipped.count, 1);
}
