use session_mux::ids::DomainIdAllocator;
use std::sync::{Arc, Mutex};

#[test]
fn first_identifier_is_zero() {
    let mut ids = DomainIdAllocator::new();
    assert_eq!(ids.count(), 0);
    assert_eq!(ids.allocate(), 0);
    assert_eq!(ids.count(), 1);
}

#[test]
fn identifiers_are_consecutive_and_distinct() {
    let mut ids = DomainIdAllocator::new();
    let mut got = Vec::new();
    for _ in 0..100 {
        got.push(ids.allocate());
    }
    for (i, id) in got.iter().enumerate() {
        assert_eq!(*id, i as u64);
    }
    for i in 0..got.len() {
        for j in (i + 1)..got.len() {
            assert!(got[i] < got[j]);
        }
    }
    assert_eq!(ids.count(), 100);
}

#[test]
fn try_allocate_hands_out_the_same_sequence() {
    let mut ids = DomainIdAllocator::new();
    assert_eq!(ids.try_allocate(), Some(0));
    assert_eq!(ids.allocate(), 1);
    assert_eq!(ids.try_allocate(), Some(2));
    assert!(!ids.is_exhausted());
}

#[test]
fn allocations_behind_a_lock_are_distinct() {
    let ids = Arc::new(Mutex::new(DomainIdAllocator::new()));
    let first = Arc::clone(&ids);
    let second = Arc::clone(&ids);
    let mut all: Vec<u64> = Vec::new();
    for round in 0..50 {
        if round % 3 == 0 {
            all.push(second.lock().unwrap().allocate());
            all.push(first.lock().unwrap().allocate());
        } else {
            all.push(first.lock().unwrap().allocate());
            all.push(second.lock().unwrap().allocate());
        }
    }
    let expected: Vec<u64> = (0..100).collect();
    assert_eq!(all, expected);
}
