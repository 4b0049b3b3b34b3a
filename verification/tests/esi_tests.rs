use soem::ESIBuf;
use soem::ESIMap;

#[test]
fn fresh_cache_is_zeroed() {
    let b = ESIBuf::new();
    assert_eq!(b.read(0, 8), vec![0; 8]);
    assert_eq!(b.read(4088, 8), vec![0; 8]);
}

#[test]
fn copy_in_changes_only_its_region() {
    let mut b = ESIBuf::new();
    b.copy_in(10, &vec![1, 2, 3]);
    assert_eq!(b.read(9, 5), vec![0, 1, 2, 3, 0]);
}

#[test]
fn map_tracks_valid_slots() {
    let mut m = ESIMap::new();
    assert!(!m.get(0));
    m.set(0, true);
    m.set(5, true);
    assert!(m.get(0));
    assert!(!m.get(1));
    assert!(m.get(5));
    m.clear();
    assert!(!m.get(0));
    assert!(!m.get(5));
}
