use fastcgi_client::error::ClientError;
use fastcgi_client::id::{
    AllocRequestId, FixRequestIdAllocator, PooledRequestIdAllocator, ID_COUNT, REQUEST_ID,
};
use std::collections::HashSet;

#[test]
fn fixed_allocator_always_gives_the_same_id() {
    let mut ids = FixRequestIdAllocator;
    assert_eq!(REQUEST_ID, 1);
    assert_eq!(ids.allocate(), Ok(1));
    assert_eq!(ids.allocate(), Ok(1));
    ids.release(1);
    assert_eq!(ids.allocate(), Ok(1));
    ids.release(7);
    assert_eq!(ids.allocate(), Ok(1));
}

#[test]
fn pooled_allocator_starts_at_one_and_counts_up() {
    let mut ids = PooledRequestIdAllocator::new();
    assert_eq!(ids.allocate(), Ok(1));
    assert_eq!(ids.allocate(), Ok(2));
    assert_eq!(ids.allocate(), Ok(3));
}

#[test]
fn default_pooled_allocator_is_a_new_one() {
    let mut ids = PooledRequestIdAllocator::default();
    assert_eq!(ids.allocate(), Ok(1));
    assert_eq!(ids.allocate(), Ok(2));
}

#[test]
fn sequential_requests_get_distinct_ids() {
    let mut ids = PooledRequestIdAllocator::new();
    let mut seen = HashSet::new();
    for _ in 0..1000 {
        let id = ids.allocate().unwrap();
        assert_ne!(id, 0);
        assert!(seen.insert(id));
        ids.release(id);
    }
    assert_eq!(seen.len(), 1000);
}

#[test]
fn as_many_sequential_requests_as_ids_get_distinct_ids() {
    let mut ids = PooledRequestIdAllocator::new();
    let mut seen = vec![false; 65536];
    for n in 0..ID_COUNT {
        let id = ids.allocate().unwrap();
        assert_eq!(id as usize, n + 1);
        assert!(!seen[id as usize]);
        seen[id as usize] = true;
        ids.release(id);
    }
    assert!(!seen[0]);
    assert!(seen[1..].iter().all(|s| *s));
    assert_eq!(ids.allocate(), Ok(1));
}

#[test]
fn released_id_is_handed_out_again() {
    let mut ids = PooledRequestIdAllocator::new();
    let mut out = Vec::new();
    for _ in 0..ID_COUNT {
        out.push(ids.allocate().unwrap());
    }
    assert_eq!(ids.allocate(), Err(ClientError::RequestIdExhausted));
    ids.release(4711);
    assert_eq!(ids.allocate(), Ok(4711));
    assert_eq!(ids.allocate(), Err(ClientError::RequestIdExhausted));
}

#[test]
fn exhausting_the_ids_fails_and_never_repeats_one() {
    let mut ids = PooledRequestIdAllocator::new();
    let mut seen = HashSet::new();
    for _ in 0..65535 {
        let id = ids.allocate().unwrap();
        assert_ne!(id, 0);
        assert!(seen.insert(id));
    }
    assert_eq!(seen.len(), 65535);
    assert_eq!(ids.allocate(), Err(ClientError::RequestIdExhausted));
    assert_eq!(ids.allocate(), Err(ClientError::RequestIdExhausted));
}

#[test]
fn outstanding_ids_are_never_handed_out() {
    let mut ids = PooledRequestIdAllocator::new();
    let a = ids.allocate().unwrap();
    let b = ids.allocate().unwrap();
    let c = ids.allocate().unwrap();
    ids.release(b);
    let mut outstanding: HashSet<u16> = [a, c].into_iter().collect();
    for _ in 0..(65535 - 2) {
        let id = ids.allocate().unwrap();
        assert!(outstanding.insert(id));
    }
    assert!(outstanding.contains(&b));
    assert_eq!(ids.allocate(), Err(ClientError::RequestIdExhausted));
}

#[test]
fn released_ids_queue_up_behind_the_free_ones() {
    let mut ids = PooledRequestIdAllocator::new();
    assert_eq!(ids.allocate(), Ok(1));
    assert_eq!(ids.allocate(), Ok(2));
    ids.release(1);
    assert_eq!(ids.allocate(), Ok(3));
    ids.release(3);
    ids.release(2);
    for expected in 4..=65535u16 {
        assert_eq!(ids.allocate(), Ok(expected));
    }
    assert_eq!(ids.allocate(), Ok(1));
    assert_eq!(ids.allocate(), Ok(3));
    assert_eq!(ids.allocate(), Ok(2));
    assert_eq!(ids.allocate(), Err(ClientError::RequestIdExhausted));
}

#[test]
fn releasing_a_free_id_or_zero_changes_nothing() {
    let mut ids = PooledRequestIdAllocator::new();
    ids.release(0);
    ids.release(5);
    ids.release(65535);
    let a = ids.allocate().unwrap();
    assert_eq!(a, 1);
    ids.release(a);
    ids.release(a);
    ids.release(0);
    let mut seen = HashSet::new();
    for _ in 0..65535 {
        assert!(seen.insert(ids.allocate().unwrap()));
    }
    assert!(!seen.contains(&0));
    assert_eq!(ids.allocate(), Err(ClientError::RequestIdExhausted));
}
