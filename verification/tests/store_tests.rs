use majiix_backend::codec::FileHeader;
use majiix_backend::store::MemFile;
use majiix_backend::store::MemFiles;
use majiix_backend::store::StoreError;
use majiix_backend::store::CACHE_CLEAN_UP_PERIOD_MS;

fn header_with_cache_control(text: &str) -> FileHeader {
    let mut h = FileHeader::new();
    h.cache_control = text.to_string();
    h
}

#[test]
fn new_store_is_empty() {
    let fs = MemFiles::new(CACHE_CLEAN_UP_PERIOD_MS);
    assert_eq!(fs.house_keeping_period_ms(), CACHE_CLEAN_UP_PERIOD_MS);
    assert!(!fs.contains_key("cam1/video/init"));
    assert!(fs.get("cam1/video/init").is_none());
}

#[test]
fn mem_file_write_appends() {
    let mut f = MemFile::new(FileHeader::new(), 5);
    assert_eq!(f.received_at_ms(), 5);
    assert_eq!(f.max_age(), u64::MAX);
    assert_eq!(f.write(&[1, 2]), 2);
    assert_eq!(f.write(&[3]), 1);
    assert_eq!(f.bytes(), &vec![1u8, 2, 3]);
}

#[test]
fn mem_file_max_age_from_header() {
    let f = MemFile::new(header_with_cache_control("max-age=250"), 0);
    assert_eq!(f.max_age(), 250);
}

#[test]
fn create_then_append() {
    let mut fs = MemFiles::new(CACHE_CLEAN_UP_PERIOD_MS);
    assert!(fs.create_or_get("k", FileHeader::new(), 1));
    assert!(fs.contains_key("k"));
    assert_eq!(fs.append("k", &[9, 8]), Ok(2));
    assert_eq!(fs.get("k").unwrap().bytes(), &vec![9u8, 8]);
}

#[test]
fn append_to_unknown_key_is_an_error() {
    let mut fs = MemFiles::new(CACHE_CLEAN_UP_PERIOD_MS);
    assert_eq!(fs.append("nobody", &[1]), Err(StoreError::UnknownKey));
    assert!(!fs.contains_key("nobody"));
}

#[test]
fn creation_race_is_first_writer_wins() {
    let mut fs = MemFiles::new(CACHE_CLEAN_UP_PERIOD_MS);
    assert!(fs.create_or_get("k", header_with_cache_control("max-age=100"), 11));
    fs.append("k", &[1]).unwrap();
    // A second creation under the same key observes the existing entry.
    assert!(!fs.create_or_get("k", header_with_cache_control("max-age=999"), 22));
    let f = fs.get("k").unwrap();
    assert_eq!(f.received_at_ms(), 11);
    assert_eq!(f.max_age(), 100);
    assert_eq!(f.bytes(), &vec![1u8]);
}

#[test]
fn three_sequential_appends_concatenate() {
    let mut fs = MemFiles::new(CACHE_CLEAN_UP_PERIOD_MS);
    fs.create_or_get("cam1/video/init", FileHeader::new(), 0);
    fs.append("cam1/video/init", &[1, 2]).unwrap();
    fs.append("cam1/video/init", &[]).unwrap();
    fs.append("cam1/video/init", &[3, 4, 5]).unwrap();
    assert_eq!(
        fs.get("cam1/video/init").unwrap().bytes(),
        &vec![1u8, 2, 3, 4, 5]
    );
}

#[test]
fn appends_to_distinct_keys_are_independent() {
    let mut fs = MemFiles::new(CACHE_CLEAN_UP_PERIOD_MS);
    fs.create_or_get("a/video/init", FileHeader::new(), 0);
    fs.create_or_get("b/video/init", FileHeader::new(), 0);
    fs.append("a/video/init", &[1]).unwrap();
    let b_before = fs.get("b/video/init").unwrap().bytes().clone();
    fs.append("b/video/init", &[2]).unwrap();
    let a_after = fs.get("a/video/init").unwrap().bytes().clone();
    assert_eq!(b_before, Vec::<u8>::new());
    assert_eq!(a_after, vec![1u8]);
    assert_eq!(fs.get("b/video/init").unwrap().bytes(), &vec![2u8]);
}

#[test]
fn add_new_empty_file_derives_the_key() {
    let mut fs = MemFiles::new(CACHE_CLEAN_UP_PERIOD_MS);
    let key = fs.add_new_empty_file("cam1", "video", true, FileHeader::new(), 3);
    assert_eq!(key, "cam1/video/init");
    assert!(fs.contains_key("cam1/video/init"));
    let key2 = fs.add_new_empty_file("cam1", "video", false, FileHeader::new(), 3);
    assert_eq!(key2, "cam1/video/cam1");
}

#[test]
fn sweep_removes_expired_buffers_only() {
    let mut fs = MemFiles::new(CACHE_CLEAN_UP_PERIOD_MS);
    fs.create_or_get("old", header_with_cache_control("max-age=10"), 0);
    fs.create_or_get("fresh", header_with_cache_control("max-age=10000"), 0);
    fs.create_or_get("immortal", FileHeader::new(), 0);
    fs.append("fresh", &[7]).unwrap();
    fs.sweep(5000);
    assert!(!fs.contains_key("old"));
    assert!(fs.contains_key("fresh"));
    assert!(fs.contains_key("immortal"));
    assert_eq!(fs.get("fresh").unwrap().bytes(), &vec![7u8]);
}

#[test]
fn sweep_keeps_buffer_at_exact_deadline() {
    // A buffer expires only once received_at + max_age lies strictly before now.
    let mut fs = MemFiles::new(CACHE_CLEAN_UP_PERIOD_MS);
    fs.create_or_get("edge", header_with_cache_control("max-age=10"), 0);
    fs.sweep(10);
    assert!(fs.contains_key("edge"));
    fs.sweep(11);
    assert!(!fs.contains_key("edge"));
}
