use hunt::governor::PermitPool;

#[test]
fn pool_refuses_past_capacity() {
    let mut pool = PermitPool::new(2);
    let a = pool.try_acquire();
    let b = pool.try_acquire();
    assert!(a.is_some() && b.is_some());
    assert!(pool.try_acquire().is_none());
    assert_eq!(pool.outstanding(), 2);
    assert_eq!(pool.available(), 0);
    pool.release(a.unwrap());
    assert_eq!(pool.outstanding(), 1);
    let c = pool.try_acquire();
    assert!(c.is_some());
    assert!(pool.try_acquire().is_none());
}

#[test]
fn outstanding_never_exceeds_capacity() {
    let mut pool = PermitPool::new(3);
    let mut held = Vec::new();
    for round in 0..20 {
        if round % 3 == 2 {
            if let Some(p) = held.pop() {
                pool.release(p);
            }
        } else if let Some(p) = pool.try_acquire() {
            held.push(p);
        }
        assert!(pool.outstanding() <= pool.capacity());
        assert_eq!(pool.outstanding(), held.len());
    }
}

#[test]
fn empty_pool_hands_out_nothing() {
    let mut pool = PermitPool::new(0);
    assert!(pool.try_acquire().is_none());
    assert_eq!(pool.capacity(), 0);
}
