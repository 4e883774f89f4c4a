use event_timer::{
    deadline_for, worker_step, GEvent, GEventStorage, TimerAction, TimerEvent, TimerKey,
    TimerRequest, TimerStorage, WAIT_CEILING_MS,
};

type ListStorage = Vec<TimerEvent<u64>>;

fn expect_wait<T: std::fmt::Debug>(action: TimerAction<T>) -> u32 {
    match action {
        TimerAction::Wait(d) => d,
        TimerAction::Trigger(k) => panic!("expected a wait, got a trigger of {:?}", k),
    }
}

fn expect_trigger<T: std::fmt::Debug>(action: TimerAction<T>) -> T {
    match action {
        TimerAction::Trigger(k) => k,
        TimerAction::Wait(d) => panic!("expected a trigger, got a wait of {} ms", d),
    }
}

#[test]
fn fresh_storage_waits_ceiling() {
    let mut list: ListStorage = TimerStorage::new();
    assert_eq!(expect_wait(list.next_action(1000)), WAIT_CEILING_MS);
    let mut slots: GEventStorage = TimerStorage::new();
    assert_eq!(expect_wait(slots.next_action(1000)), WAIT_CEILING_MS);
}

#[test]
fn start_then_immediate_wait() {
    let mut list: ListStorage = TimerStorage::new();
    list.set(&1, deadline_for(1000, 100));
    let d = expect_wait(list.next_action(1000));
    assert!(0 < d && d <= 100);
    assert_eq!(d, 100);

    let mut slots: GEventStorage = TimerStorage::new();
    slots.set(&GEvent::Yks, deadline_for(1000, 100));
    assert_eq!(expect_wait(slots.next_action(1000)), 100);
}

#[test]
fn start_then_stop_never_triggers() {
    let mut list: ListStorage = TimerStorage::new();
    list.set(&1, deadline_for(1000, 100));
    TimerStorage::clear(&mut list, &1);
    assert_eq!(expect_wait(list.next_action(1100)), WAIT_CEILING_MS);

    let mut slots: GEventStorage = TimerStorage::new();
    slots.set(&GEvent::Kaks, deadline_for(1000, 100));
    slots.clear(&GEvent::Kaks);
    assert_eq!(expect_wait(slots.next_action(1100)), WAIT_CEILING_MS);
}

#[test]
fn stop_twice_leaves_storage_unchanged() {
    let mut slots: GEventStorage = TimerStorage::new();
    slots.set(&GEvent::Kaks, 500);
    slots.clear(&GEvent::Yks);
    slots.clear(&GEvent::Yks);
    assert_eq!(expect_wait(slots.next_action(400)), 100);
    assert_eq!(expect_trigger(slots.next_action(500)), GEvent::Kaks);
}

#[test]
fn stop_of_never_started_key_is_a_no_op() {
    let mut list: ListStorage = TimerStorage::new();
    TimerStorage::clear(&mut list, &5);
    TimerStorage::clear(&mut list, &5);
    assert_eq!(expect_wait(list.next_action(0)), WAIT_CEILING_MS);
}

#[test]
fn start_overwrites_earlier_start() {
    let mut list: ListStorage = TimerStorage::new();
    list.set(&1, deadline_for(1000, 100));
    list.set(&1, deadline_for(1000, 10));
    assert_eq!(expect_wait(list.next_action(1000)), 10);
    assert_eq!(expect_trigger(list.next_action(1010)), 1);
    assert_eq!(expect_wait(list.next_action(1010)), WAIT_CEILING_MS);
}

#[test]
fn earliest_deadline_fires_first() {
    let mut list: ListStorage = TimerStorage::new();
    list.set(&1, deadline_for(1000, 50));
    list.set(&2, deadline_for(1000, 10));
    assert_eq!(expect_wait(list.next_action(1000)), 10);
    assert_eq!(expect_trigger(list.next_action(1010)), 2);
    assert_eq!(expect_wait(list.next_action(1010)), 40);
    assert_eq!(expect_trigger(list.next_action(1050)), 1);

    let mut slots: GEventStorage = TimerStorage::new();
    slots.set(&GEvent::Yks, deadline_for(1000, 50));
    slots.set(&GEvent::Kaks, deadline_for(1000, 10));
    assert_eq!(expect_wait(slots.next_action(1000)), 10);
    assert_eq!(expect_trigger(slots.next_action(1010)), GEvent::Kaks);
    assert_eq!(expect_wait(slots.next_action(1010)), 40);
    assert_eq!(expect_trigger(slots.next_action(1050)), GEvent::Yks);
}

#[test]
fn no_double_fire_at_same_instant() {
    let mut list: ListStorage = TimerStorage::new();
    list.set(&9, 1000);
    assert_eq!(expect_trigger(list.next_action(1000)), 9);
    assert_eq!(expect_wait(list.next_action(1000)), WAIT_CEILING_MS);

    let mut slots: GEventStorage = TimerStorage::new();
    slots.set(&GEvent::Yks, 1000);
    assert_eq!(expect_trigger(slots.next_action(1000)), GEvent::Yks);
    assert_eq!(expect_wait(slots.next_action(1000)), WAIT_CEILING_MS);
}

#[test]
fn past_deadline_fires_immediately() {
    let mut list: ListStorage = TimerStorage::new();
    list.set(&4, 500);
    assert_eq!(expect_trigger(list.next_action(1000)), 4);
}

#[test]
fn wait_is_capped_at_the_ceiling() {
    let mut list: ListStorage = TimerStorage::new();
    list.set(&1, deadline_for(1000, 100_000));
    assert_eq!(expect_wait(list.next_action(1000)), WAIT_CEILING_MS);
}

#[test]
fn simultaneous_deadlines_fire_one_at_a_time() {
    let mut list: ListStorage = TimerStorage::new();
    list.set(&1, 1010);
    list.set(&2, 1010);
    assert_eq!(expect_trigger(list.next_action(1030)), 1);
    assert_eq!(expect_trigger(list.next_action(1030)), 2);
    assert_eq!(expect_wait(list.next_action(1030)), WAIT_CEILING_MS);
}

#[test]
fn worker_applies_whole_batch_before_deciding() {
    let mut list: ListStorage = TimerStorage::new();
    let burst = vec![
        TimerRequest::Start(1, deadline_for(1000, 100)),
        TimerRequest::Start(2, deadline_for(1000, 50)),
        TimerRequest::Stop(1),
    ];
    assert_eq!(expect_wait(worker_step(&mut list, &burst, 1000)), 50);
    let none: Vec<TimerRequest<u64>> = Vec::new();
    assert_eq!(expect_trigger(worker_step(&mut list, &none, 1050)), 2);
    assert_eq!(expect_wait(worker_step(&mut list, &none, 1050)), WAIT_CEILING_MS);
}

#[test]
fn generated_timer_scenario() {
    let mut slots: GEventStorage = TimerStorage::new();
    let requests = vec![
        TimerRequest::Start(GEvent::Yks, deadline_for(0, 700)),
        TimerRequest::Start(GEvent::Kaks, deadline_for(0, 200)),
    ];
    let mut fired: Vec<(GEvent, u64)> = Vec::new();
    let none: Vec<TimerRequest<GEvent>> = Vec::new();

    let mut now: u64 = 0;
    let mut batch = &requests;
    while now <= 1000 {
        match worker_step(&mut slots, batch, now) {
            TimerAction::Trigger(key) => fired.push((key, now)),
            TimerAction::Wait(d) => now += d as u64,
        }
        batch = &none;
    }

    assert_eq!(fired.len(), 2);
    assert_eq!(fired[0], (GEvent::Kaks, 200));
    assert_eq!(fired[1], (GEvent::Yks, 700));
}

#[test]
fn storage_strategies_are_interchangeable() {
    let mut list: ListStorage = TimerStorage::new();
    let mut slots: GEventStorage = TimerStorage::new();
    list.set(&1, 1700);
    slots.set(&GEvent::Yks, 1700);
    list.set(&2, 1200);
    slots.set(&GEvent::Kaks, 1200);

    for now in [1000, 1200, 1200, 1700, 1700] {
        let a = list.next_action(now);
        let b = slots.next_action(now);
        match (a, b) {
            (TimerAction::Wait(x), TimerAction::Wait(y)) => assert_eq!(x, y),
            (TimerAction::Trigger(x), TimerAction::Trigger(y)) => {
                assert_eq!(x == 1, y == GEvent::Yks);
                assert_eq!(x == 2, y == GEvent::Kaks);
            },
            _ => panic!("the two storages disagreed at {}", now),
        }
    }
}

#[test]
fn deadline_is_now_plus_timeout() {
    assert_eq!(deadline_for(1000, 250), 1250);
    assert_eq!(deadline_for(0, 0), 0);
}

#[test]
fn key_operations_agree_with_equality() {
    assert!(1u64.eq_key(&1));
    assert!(!1u64.eq_key(&2));
    assert_eq!(7u64.dup(), 7);
    assert!(GEvent::Yks.eq_key(&GEvent::Yks));
    assert!(!GEvent::Yks.eq_key(&GEvent::Kaks));
    assert_eq!(GEvent::Kaks.dup(), GEvent::Kaks);
}
