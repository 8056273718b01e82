use async_with_callback::pollevent::PollEvent;
use async_with_callback::reactor::{reactor_step, ReactorStep, Selected};
use async_with_callback::selector::{Event, Interest};

#[test]
fn readable_asks_for_readability_only() {
    let interest = Interest::readable();
    assert!(interest.is_readable());
    assert!(!interest.is_writeable());
}

#[test]
fn writeable_asks_for_writability_only() {
    let interest = Interest::writeable();
    assert!(interest.is_writeable());
    assert!(!interest.is_readable());
}

#[test]
fn an_event_carries_its_identity() {
    let event = Event::new(0x1 | 0x40000000, 10);
    assert_eq!(event.id(), 10);
    assert_eq!(event.data(), 10);
    let other = Event::new(-1, usize::MAX);
    assert_eq!(other.id(), usize::MAX);
    assert_eq!(other.data(), usize::MAX);
    assert_eq!(Event::new(1, 0).id(), 0);
}

#[test]
fn the_reactor_forwards_one_readiness_event_per_descriptor() {
    assert_eq!(
        reactor_step(Selected::Ready(vec![10, 11, 3])),
        ReactorStep::Forward(vec![
            PollEvent::Readiness(10),
            PollEvent::Readiness(11),
            PollEvent::Readiness(3),
        ])
    );
    assert_eq!(
        reactor_step(Selected::Ready(vec![7])),
        ReactorStep::Forward(vec![PollEvent::Readiness(7)])
    );
}

#[test]
fn the_reactor_forwards_a_tick_when_the_wait_ran_out() {
    assert_eq!(
        reactor_step(Selected::Ready(vec![])),
        ReactorStep::Forward(vec![PollEvent::TimeoutTick])
    );
}

#[test]
fn the_reactor_exits_when_closed_and_gives_up_on_failure() {
    assert_eq!(reactor_step(Selected::Interrupted), ReactorStep::Exit);
    assert_eq!(reactor_step(Selected::Failed), ReactorStep::Abort);
}

#[test]
fn the_wait_gets_no_limit_zero_or_the_timeout() {
    use_select_timeout(None, -1);
    use_select_timeout(Some(-1), 0);
    use_select_timeout(Some(i32::MIN), 0);
    use_select_timeout(Some(0), 0);
    use_select_timeout(Some(1), 1);
    use_select_timeout(Some(200), 200);
    use_select_timeout(Some(i32::MAX), i32::MAX);
}

fn use_select_timeout(timeout_ms: Option<i32>, expected: i32) {
    assert_eq!(async_with_callback::selector::select_timeout(timeout_ms), expected);
}
