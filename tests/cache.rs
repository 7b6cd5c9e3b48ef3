use hath::file::{CacheFile, FileHash, FileInfo, FileType};
use hath::manager::{classify, is_shard_dir_name, CacheManager, ScanEntry};

const MIB: u64 = 1024 * 1024;

fn file(n: u8, size: u64) -> CacheFile {
    let mut raw = [0u8; 20];
    raw[0] = n;
    raw[19] = n;
    CacheFile { hash: FileHash(raw), info: FileInfo { size, res: (1, 1), typ: FileType::Jpeg } }
}

#[test]
fn admit_ten_with_quota_of_five() {
    let mut m = CacheManager::new();
    m.set_max_size(5 * MIB);
    let mut evicted = Vec::new();
    for n in 0..10u8 {
        evicted.extend(m.add(file(n, MIB)));
        assert!(m.current_size() <= m.max_size());
    }
    assert_eq!(m.current_size(), 5 * MIB);
    assert_eq!(m.len(), 5);
    let gone: Vec<u8> = evicted.iter().map(|f| f.hash.0[0]).collect();
    assert_eq!(gone, vec![0, 1, 2, 3, 4]);
    m.set_max_size(0);
    let rest: Vec<u8> = m.add(file(10, 0)).iter().map(|f| f.hash.0[0]).collect();
    assert_eq!(rest, vec![5, 6, 7, 8, 9]);
}

#[test]
fn readmission_replaces_without_double_counting() {
    let mut m = CacheManager::new();
    m.set_max_size(100);
    assert!(m.add(file(1, 10)).is_empty());
    assert!(m.add(file(2, 20)).is_empty());
    assert!(m.add(file(1, 30)).is_empty());
    assert_eq!(m.current_size(), 50);
    assert_eq!(m.len(), 2);
}

#[test]
fn shrinking_quota_evicts_on_next_admission() {
    let mut m = CacheManager::new();
    m.set_max_size(100);
    for n in 0..5u8 {
        assert!(m.add(file(n, 20)).is_empty());
    }
    assert_eq!(m.current_size(), 100);
    m.set_max_size(30);
    let evicted = m.add(file(9, 10));
    let gone: Vec<u8> = evicted.iter().map(|f| f.hash.0[0]).collect();
    assert_eq!(gone, vec![0, 1, 2, 3]);
    assert_eq!(m.current_size(), 30);
}

#[test]
fn touch_protects_from_eviction() {
    let mut m = CacheManager::new();
    m.set_max_size(30);
    m.add(file(1, 10));
    m.add(file(2, 10));
    m.add(file(3, 10));
    m.update(&file(1, 10));
    m.update(&file(42, 10));
    let evicted = m.add(file(4, 10));
    assert_eq!(evicted.len(), 1);
    assert_eq!(evicted[0].hash.0[0], 2);
}

#[test]
fn single_artifact_larger_than_quota_is_evicted_at_once() {
    let mut m = CacheManager::new();
    m.set_max_size(5);
    let evicted = m.add(file(1, 6));
    assert_eq!(evicted.len(), 1);
    assert_eq!(m.current_size(), 0);
    assert_eq!(m.len(), 0);
}

#[test]
fn scan_classifies_good_bad_and_foreign_files() {
    let name = "5eb2e462781a2ba02cf435d6baa3573f4551c1a5-37444-1800-1000.png";
    match classify(name.as_bytes(), 37444) {
        ScanEntry::Keep(f) => assert_eq!(f.info.size, 37444),
        _ => panic!("expected keep"),
    }
    assert!(matches!(classify(name.as_bytes(), 100), ScanEntry::Remove));
    assert!(matches!(classify(b"notes.txt", 9), ScanEntry::Skip));
    assert!(matches!(classify(b"readme", 0), ScanEntry::Skip));
}

#[test]
fn scan_directory_names() {
    assert!(is_shard_dir_name(b"5e"));
    assert!(is_shard_dir_name(b"00"));
    assert!(!is_shard_dir_name(b"5E"));
    assert!(!is_shard_dir_name(b"5"));
    assert!(!is_shard_dir_name(b"5eb"));
    assert!(!is_shard_dir_name(b"zz"));
}

#[test]
fn build_puts_most_recently_accessed_in_front() {
    let mut m = CacheManager::new();
    m.build(vec![(30, file(3, 1)), (10, file(1, 1)), (20, file(2, 1))]);
    assert_eq!(m.current_size(), 3);
    m.set_max_size(1);
    let evicted = m.add(file(9, 0));
    let gone: Vec<u8> = evicted.iter().map(|f| f.hash.0[0]).collect();
    assert_eq!(gone, vec![1, 2]);
}
