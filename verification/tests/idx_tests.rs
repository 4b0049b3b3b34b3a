use soem::IdxStack;

#[test]
fn fresh_pool_hands_out_every_identifier() {
    let mut s = IdxStack::new();
    let mut seen = vec![false; 8];
    let mut i: usize = 0;
    while i < 8 {
        let id = s.acquire().expect("pool has free identifiers");
        assert!((id as usize) < 8);
        assert!(!seen[id as usize], "identifier handed out twice while in use");
        seen[id as usize] = true;
        i += 1;
    }
    assert!(seen.iter().all(|b| *b));
}

#[test]
fn exhausted_pool_refuses() {
    let mut s = IdxStack::new();
    let mut i: usize = 0;
    while i < 8 {
        s.acquire().unwrap();
        i += 1;
    }
    assert!(s.acquire().is_err());
}

#[test]
fn release_makes_an_identifier_reusable() {
    let mut s = IdxStack::new();
    let mut i: usize = 0;
    while i < 8 {
        s.acquire().unwrap();
        i += 1;
    }
    s.release(3);
    assert!(!s.is_in_use(3));
    let id = s.acquire().expect("released identifier is free again");
    assert_eq!(id, 3);
    assert!(s.is_in_use(3));
}

#[test]
fn default_pool_is_all_free() {
    let s = IdxStack::default();
    let mut id: u8 = 0;
    while id < 8 {
        assert!(!s.is_in_use(id));
        id += 1;
    }
}
