use async_with_callback::timers::TimerWheel;

#[test]
fn a_new_wheel_is_empty() {
    let mut wheel = TimerWheel::new();
    assert_eq!(wheel.len(), 0);
    assert_eq!(wheel.next_delay(0), None);
    assert_eq!(wheel.next_delay(u64::MAX), None);
    assert_eq!(wheel.pop_expired(u64::MAX), Vec::<usize>::new());
}

#[test]
fn pop_expired_gives_the_due_timers_earliest_first() {
    let mut wheel = TimerWheel::new();
    wheel.insert(30, 1);
    wheel.insert(10, 2);
    wheel.insert(20, 3);
    wheel.insert(40, 4);
    assert_eq!(wheel.len(), 4);

    assert_eq!(wheel.pop_expired(9), Vec::<usize>::new());
    assert_eq!(wheel.len(), 4);
    assert_eq!(wheel.pop_expired(20), vec![2, 3]);
    assert_eq!(wheel.len(), 2);
    assert_eq!(wheel.pop_expired(20), Vec::<usize>::new());
    assert_eq!(wheel.pop_expired(1000), vec![1, 4]);
    assert_eq!(wheel.len(), 0);
}

#[test]
fn a_deadline_equal_to_now_is_due() {
    let mut wheel = TimerWheel::new();
    wheel.insert(5, 1);
    assert_eq!(wheel.pop_expired(4), Vec::<usize>::new());
    assert_eq!(wheel.pop_expired(5), vec![1]);
}

#[test]
fn equal_deadlines_keep_their_order_of_arrival() {
    let mut wheel = TimerWheel::new();
    wheel.insert(7, 10);
    wheel.insert(7, 11);
    wheel.insert(3, 12);
    wheel.insert(7, 13);
    wheel.insert(3, 14);
    assert_eq!(wheel.len(), 5);
    assert_eq!(wheel.pop_expired(7), vec![12, 14, 10, 11, 13]);
}

#[test]
fn next_delay_is_the_time_to_the_earliest_deadline() {
    let mut wheel = TimerWheel::new();
    wheel.insert(150, 1);
    wheel.insert(100, 2);
    assert_eq!(wheel.next_delay(0), Some(100));
    assert_eq!(wheel.next_delay(40), Some(60));
    assert_eq!(wheel.next_delay(99), Some(1));
    assert_eq!(wheel.next_delay(100), Some(0));
}

#[test]
fn next_delay_is_never_negative() {
    let mut wheel = TimerWheel::new();
    wheel.insert(100, 1);
    assert_eq!(wheel.next_delay(101), Some(0));
    assert_eq!(wheel.next_delay(u64::MAX), Some(0));
}

#[test]
fn next_delay_is_capped_at_the_largest_i32() {
    let mut wheel = TimerWheel::new();
    wheel.insert(i32::MAX as u128 + 10, 1);
    assert_eq!(wheel.next_delay(10), Some(i32::MAX));
    assert_eq!(wheel.next_delay(11), Some(i32::MAX - 1));
    assert_eq!(wheel.next_delay(0), Some(i32::MAX));

    let mut far = TimerWheel::new();
    far.insert(u64::MAX as u128 + u64::MAX as u128, 2);
    assert_eq!(far.next_delay(u64::MAX), Some(i32::MAX));
    assert_eq!(far.pop_expired(u64::MAX), Vec::<usize>::new());
}
