use compactor::hashfilter::{HashFilter, SavePlan};
use siphasher::sip128::{Hasher128, SipHasher};
use std::hash::Hash;

/// Carries a planned save out on a file held in memory, and tells the set.
fn save_to(hf: &mut HashFilter, file: &mut Vec<u8>) {
    let end = file.len() as u64;
    if let Some(SavePlan { truncate_to, bytes }) = hf.save_plan(end) {
        file.truncate(truncate_to as usize);
        file.extend_from_slice(&bytes);
        hf.saved(end, file.len() as u64);
    }
}

/// Reads what the file holds from the set's offset on.
fn load_from(hf: &mut HashFilter, file: &[u8]) {
    let from = (hf.last_offset() as usize).min(file.len());
    hf.load(&file[from..]);
}

#[test]
fn it_seems_to_work() {
    let mut db: Vec<u8> = Vec::new();
    let mut hf = HashFilter::open("test.dat");
    load_from(&mut hf, &db);

    let paths = vec![
        "/path/to/some/file0",
        "/path/to/some/file1",
        "/path/to/some/file2",
        "/path/to/some/file3",
        "/path/to/some/file4",
        "/path/to/some/file5",
        "/path/to/some/file6",
        "/path/to/some/file7",
        "/path/to/some/file8",
        "/path/to/some/file9",
    ];

    for p in &paths {
        hf.insert(p);
    }

    save_to(&mut hf, &mut db);

    let mut hf2 = HashFilter::open("test.dat");
    load_from(&mut hf2, &db);
    hf2.insert("/path/to/some/file10");
    save_to(&mut hf2, &mut db);

    for p in &paths {
        assert!(hf2.contains(p));
    }

    load_from(&mut hf, &db);
    assert!(hf.contains("/path/to/some/file10"));
}

#[test]
fn key_is_the_sip_digest_of_the_path() {
    let path = "/path/to/some/file0";
    let mut hasher = SipHasher::new();
    path.hash(&mut hasher);
    let digest = hasher.finish128();
    let expected = (u128::from(digest.h1) << 64) | u128::from(digest.h2);
    assert_eq!(HashFilter::key_for(path), expected);
    assert_ne!(HashFilter::key_for(path), HashFilter::key_for("/path/to/some/file1"));
    assert_ne!(HashFilter::key_for("a"), 0);
}

#[test]
fn default_set_is_empty_and_unbound() {
    let hf = HashFilter::default();
    assert!(hf.backing().is_none());
    assert_eq!(hf.last_offset(), 0);
    assert_eq!(hf.pending_len(), 0);
    assert!(!hf.contains("a"));
}

#[test]
fn insert_tells_whether_the_path_was_new() {
    let mut hf = HashFilter::new();
    assert!(hf.backing().is_none());
    assert!(!hf.contains("a"));
    assert!(hf.insert("a"));
    assert!(hf.contains("a"));
    assert!(!hf.insert("a"));
    assert_eq!(hf.pending_len(), 1);
    assert!(hf.insert("b"));
    assert_eq!(hf.pending_len(), 2);
    assert!(hf.contains_key(HashFilter::key_for("b")));
    assert!(!hf.insert_key(HashFilter::key_for("b")));
    assert!(hf.insert_key(7));
    assert!(hf.contains_key(7));
}

#[test]
fn round_trip_through_the_file() {
    let mut file: Vec<u8> = Vec::new();
    let mut hf = HashFilter::open("set.dat");
    hf.insert("A");
    hf.insert("B");
    hf.insert("C");
    save_to(&mut hf, &mut file);
    assert_eq!(file.len(), 48);
    assert_eq!(hf.pending_len(), 0);
    assert_eq!(hf.last_offset(), 48);

    let mut fresh = HashFilter::open("set.dat");
    load_from(&mut fresh, &file);
    assert!(fresh.contains("A"));
    assert!(fresh.contains("B"));
    assert!(fresh.contains("C"));
    assert!(!fresh.contains("D"));
    assert_eq!(fresh.last_offset(), 48);
    assert_eq!(fresh.pending_len(), 0);
}

#[test]
fn records_are_little_endian_newest_first() {
    let mut hf = HashFilter::open("set.dat");
    hf.insert_key(1);
    hf.insert_key(0x0102_0304_0506_0708_090a_0b0c_0d0e_0f10);
    let plan = hf.save_plan(0).unwrap();
    assert_eq!(plan.truncate_to, 0);
    let mut expected = vec![0x10, 0x0f, 0x0e, 0x0d, 0x0c, 0x0b, 0x0a, 0x09, 0x08, 0x07, 0x06, 0x05, 0x04, 0x03, 0x02, 0x01];
    expected.extend_from_slice(&[1, 0, 0, 0, 0, 0, 0, 0, 0, 0, 0, 0, 0, 0, 0, 0]);
    assert_eq!(plan.bytes, expected);
}

#[test]
fn save_cuts_a_torn_record_off_before_it_appends() {
    let mut file: Vec<u8> = Vec::new();
    let mut hf = HashFilter::open("set.dat");
    hf.insert("A");
    save_to(&mut hf, &mut file);
    // A torn write: seven bytes of a record that never was finished.
    file.extend_from_slice(&[0xAB; 7]);
    assert_eq!(file.len(), 23);

    let mut writer = HashFilter::open("set.dat");
    writer.insert("B");
    let plan = writer.save_plan(23).unwrap();
    assert_eq!(plan.truncate_to, 16);
    assert_eq!(plan.bytes.len(), 16);
    save_to(&mut writer, &mut file);
    assert_eq!(file.len(), 32);

    let mut reader = HashFilter::open("set.dat");
    load_from(&mut reader, &file);
    assert!(reader.contains("A"));
    assert!(reader.contains("B"));
    let mut torn = [0xABu8; 16];
    torn[7..].copy_from_slice(&file[16..25]);
    assert!(!reader.contains_key(u128::from_le_bytes(torn)));
    assert!(!reader.contains_key(u128::from_le_bytes([0xAB; 16])));
    assert_eq!(reader.last_offset(), 32);
}

#[test]
fn load_leaves_a_partial_record_for_later() {
    let mut hf = HashFilter::open("set.dat");
    let mut bytes = 5u128.to_le_bytes().to_vec();
    bytes.extend_from_slice(&[1, 2, 3]);
    hf.load(&bytes);
    assert!(hf.contains_key(5));
    assert_eq!(hf.last_offset(), 16);
    assert_eq!(hf.pending_len(), 0);
    hf.load(&[]);
    assert_eq!(hf.last_offset(), 16);
}

#[test]
fn nothing_is_saved_without_a_file_or_without_pending_keys() {
    let mut unbound = HashFilter::new();
    unbound.insert("A");
    assert!(unbound.save_plan(0).is_none());
    unbound.load(&7u128.to_le_bytes());
    assert!(!unbound.contains_key(7));
    assert_eq!(unbound.last_offset(), 0);

    let bound = HashFilter::open("set.dat");
    assert!(bound.save_plan(32).is_none());

    unbound.set_backing("set.dat");
    assert_eq!(unbound.backing().unwrap(), "set.dat");
    assert!(unbound.save_plan(0).is_some());
}

#[test]
fn set_backing_starts_reading_from_the_start() {
    let mut hf = HashFilter::open("one.dat");
    hf.load(&9u128.to_le_bytes());
    assert_eq!(hf.last_offset(), 16);
    hf.set_backing("two.dat");
    assert_eq!(hf.last_offset(), 0);
    assert!(hf.contains_key(9));
    assert_eq!(hf.backing().unwrap(), "two.dat");
}

#[test]
fn saved_moves_the_offset_only_if_the_file_was_read_to_its_end() {
    let mut hf = HashFilter::open("set.dat");
    hf.insert_key(1);
    hf.saved(0, 16);
    assert_eq!(hf.last_offset(), 16);
    assert_eq!(hf.pending_len(), 0);
    hf.insert_key(2);
    // Someone else appended meanwhile: the file was 48 bytes long, not 16.
    hf.saved(48, 64);
    assert_eq!(hf.last_offset(), 16);
    assert_eq!(hf.pending_len(), 0);
}
