use mailbox_sync::gate::{FanOut, Gate, PREFETCH_LIMIT, SYNC_FETCH_LIMIT};

fn ids(n: usize) -> Vec<String> {
    (0..n).map(|i| format!("m{}", i)).collect()
}

#[test]
fn limits_are_eight_and_four() {
    assert_eq!(SYNC_FETCH_LIMIT, 8);
    assert_eq!(PREFETCH_LIMIT, 4);
    assert_eq!(FanOut::for_sync(ids(1)).fetch_limit(), 8);
    assert_eq!(FanOut::for_prefetch(ids(1)).fetch_limit(), 4);
}

#[test]
fn no_more_than_eight_fetches_are_started() {
    let mut fan = FanOut::for_sync(ids(20));
    let mut started = Vec::new();
    while let Some(id) = fan.start_next() {
        started.push(id);
    }
    assert_eq!(started, ids(8));
    assert_eq!(fan.fetches_in_flight(), 8);
    assert_eq!(fan.start_next(), None);
}

#[test]
fn a_finished_fetch_makes_room_for_one_more() {
    let mut fan = FanOut::for_sync(ids(10));
    assert_eq!(fan.start_all().len(), 8);
    assert_eq!(fan.start_all(), Vec::<String>::new());
    fan.complete();
    assert_eq!(fan.fetches_in_flight(), 7);
    assert_eq!(fan.start_all(), vec!["m8"]);
    fan.complete();
    fan.complete();
    assert_eq!(fan.start_all(), vec!["m9"]);
    assert_eq!(fan.fetches_in_flight(), 7);
    assert_eq!(fan.start_next(), None);
}

#[test]
fn in_flight_never_exceeds_the_limit_under_any_schedule() {
    let mut fan = FanOut::for_prefetch(ids(50));
    let mut step = 0u32;
    let mut seen = 0;
    while !fan.is_done() {
        step = step.wrapping_mul(1103515245).wrapping_add(12345);
        if step % 3 == 0 {
            fan.complete();
        } else if fan.start_next().is_some() {
            seen += 1;
        } else {
            fan.complete();
        }
        assert!(fan.fetches_in_flight() <= 4);
    }
    assert_eq!(seen, 50);
    assert_eq!(fan.fetches_in_flight(), 0);
}

#[test]
fn complete_without_a_fetch_in_flight_changes_nothing() {
    let mut fan = FanOut::new(ids(2), 3);
    fan.complete();
    assert_eq!(fan.fetches_in_flight(), 0);
    assert_eq!(fan.start_all(), ids(2));
    assert!(!fan.is_done());
    fan.complete();
    fan.complete();
    fan.complete();
    assert!(fan.is_done());
}

#[test]
fn an_empty_queue_is_done() {
    let mut fan = FanOut::for_sync(Vec::new());
    assert!(fan.is_done());
    assert_eq!(fan.start_next(), None);
}

#[test]
fn a_limit_of_zero_starts_nothing() {
    let mut fan = FanOut::new(ids(3), 0);
    assert_eq!(fan.start_next(), None);
    assert!(fan.start_all().is_empty());
    assert!(!fan.is_done());
}

#[test]
fn a_gate_gives_out_no_more_permits_than_its_capacity() {
    let mut gate = Gate::for_sync();
    for _ in 0..8 {
        assert!(gate.try_acquire());
    }
    assert!(!gate.try_acquire());
    assert_eq!(gate.permits_held(), 8);
    gate.release();
    assert_eq!(gate.permits_held(), 7);
    assert!(gate.try_acquire());
    assert!(!gate.try_acquire());
}

#[test]
fn the_prefetch_gate_has_four_permits() {
    let mut gate = Gate::for_prefetch();
    let mut taken = 0;
    while gate.try_acquire() {
        taken += 1;
    }
    assert_eq!(taken, 4);
}

#[test]
fn releasing_without_a_permit_out_changes_nothing() {
    let mut gate = Gate::new(2);
    gate.release();
    assert_eq!(gate.permits_held(), 0);
    assert!(gate.try_acquire());
    assert!(gate.try_acquire());
    assert!(!gate.try_acquire());
    let mut none = Gate::new(0);
    assert!(!none.try_acquire());
}
