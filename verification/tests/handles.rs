use link_checker::handles::MaxHandles;
use link_checker::handles::DEFAULT_HANDLES;
use link_checker::handles::POLL_INTERVAL_MS;

#[test]
fn a_new_pool_is_full() {
    let pool = MaxHandles::new(20);
    assert_eq!(pool.limit(), 20);
    assert_eq!(pool.available(), 20);
    assert_eq!(pool.in_use(), 0);
}

#[test]
fn the_constants_of_a_run() {
    assert_eq!(DEFAULT_HANDLES, 20);
    assert_eq!(POLL_INTERVAL_MS, 500);
}

#[test]
fn a_permit_is_taken_and_comes_back() {
    let mut pool = MaxHandles::new(2);
    let first = pool.try_get().expect("a permit is free");
    assert_eq!(pool.available(), 1);
    assert_eq!(pool.in_use(), 1);
    pool.release(first);
    assert_eq!(pool.available(), 2);
    assert_eq!(pool.in_use(), 0);
}

#[test]
fn an_empty_pool_gives_nothing() {
    let mut pool = MaxHandles::new(1);
    let only = pool.try_get().expect("a permit is free");
    assert!(pool.try_get().is_none());
    assert_eq!(pool.in_use(), 1);
    assert_eq!(pool.available(), 0);
    pool.release(only);
    assert!(pool.try_get().is_some());
}

#[test]
fn a_pool_of_no_permits_never_gives_one() {
    let mut pool = MaxHandles::new(0);
    assert!(pool.try_get().is_none());
    assert_eq!(pool.in_use(), 0);
}

#[test]
fn outstanding_permits_never_exceed_the_capacity() {
    let mut pool = MaxHandles::new(3);
    let mut held = Vec::new();
    for round in 0..10 {
        match pool.try_get() {
            Some(handle) => held.push(handle),
            None => {}
        }
        assert!(pool.in_use() <= pool.limit());
        assert_eq!(pool.in_use() as usize, held.len());
        if round % 4 == 3 {
            let handle = held.pop().expect("a permit is held");
            pool.release(handle);
            assert_eq!(pool.in_use() as usize, held.len());
        }
    }
    assert_eq!(held.len(), 3);
}
