use ssclient::pool::{after_wait, AcquireStep, IdlePool, RefillAction, RefillRound};

fn run_round(pool: &mut IdlePool<u32>, next_id: &mut u32) {
    let mut round = RefillRound::begin(pool);
    while round.next() == RefillAction::CreateOne {
        assert!(pool.add_idle(*next_id).is_ok());
        *next_id += 1;
    }
}

#[test]
fn refill_reaches_max_idle_and_refills_after_acquire() {
    let mut pool: IdlePool<u32> = IdlePool::new(10);
    let mut next_id = 0;
    run_round(&mut pool, &mut next_id);
    assert_eq!(pool.size(), 10);
    match pool.begin_acquire() {
        AcquireStep::Ready(conn) => assert_eq!(conn, 0),
        AcquireStep::CreateFresh => panic!("pool should have an idle tunnel"),
    }
    assert!(pool.size() < 10);
    assert_eq!(after_wait(true), RefillAction::CreateOne);
    run_round(&mut pool, &mut next_id);
    assert_eq!(pool.size(), 10);
    assert_eq!(next_id, 11);
}

#[test]
fn pool_never_exceeds_max_idle() {
    let mut pool: IdlePool<u32> = IdlePool::new(2);
    assert!(pool.add_idle(1).is_ok());
    assert!(pool.add_idle(2).is_ok());
    assert_eq!(pool.add_idle(3), Err(3));
    assert_eq!(pool.size(), 2);
    assert_eq!(pool.deficit(), 0);
}

#[test]
fn empty_pool_asks_for_a_fresh_tunnel() {
    let mut pool: IdlePool<u32> = IdlePool::new(3);
    assert!(matches!(pool.begin_acquire(), AcquireStep::CreateFresh));
    assert_eq!(pool.deficit(), 3);
    assert_eq!(pool.max_idle(), 3);
}

#[test]
fn acquire_takes_oldest_first() {
    let mut pool: IdlePool<u32> = IdlePool::new(3);
    for i in 0..3 {
        assert!(pool.add_idle(i).is_ok());
    }
    for i in 0..3 {
        assert!(matches!(pool.begin_acquire(), AcquireStep::Ready(c) if c == i));
    }
}

#[test]
fn closed_signal_stops_the_loop() {
    assert_eq!(after_wait(false), RefillAction::Stop);
}
