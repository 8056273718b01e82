use async_with_callback::http::Http;
use async_with_callback::ioresult::IOResult;
use async_with_callback::model::Dispatch;
use async_with_callback::pollevent::PollEvent;
use async_with_callback::runtime::{Runtime, THREADS};
use async_with_callback::task::{Fibonacchi, Fs, Task, ThreadPoolTaskKind, Work, WorkerStep};

/// The same task once more.
fn copy_of(task: &Task) -> Task {
    let work = match &task.task {
        Work::Nothing => Work::Nothing,
        Work::ReadFile(path) => Work::ReadFile(path.to_string()),
        Work::Fibonacci(n) => Work::Fibonacci(*n),
    };
    Task { task: work, callback_id: task.callback_id, kind: task.kind }
}

/// Does what a worker does with a task, with every file missing.
fn work(sent: &Dispatch) -> PollEvent {
    match copy_of(&sent.task).step() {
        WorkerStep::Exit => panic!("a closing task was handed out"),
        WorkerStep::Run(work, token) => {
            let result = match work.evaluate() {
                Some(result) => result,
                None => Fs::result(None),
            };
            PollEvent::Threadpool(sent.thread_id, token, result)
        }
    }
}

#[test]
fn a_new_loop_has_four_idle_workers_and_nothing_scheduled() {
    let rt: Runtime<u8> = Runtime::new();
    assert_eq!(THREADS, 4);
    assert_eq!(rt.workers(), 4);
    assert_eq!(rt.idle_workers(), 4);
    assert_eq!(rt.pending_events(), 0);
    assert_eq!(rt.registered(), 0);
    assert_eq!(rt.queued(), 0);
    assert_eq!(rt.ready(), 0);
    assert_eq!(rt.timers(), 0);
    assert_eq!(rt.room(), usize::MAX);
    assert_eq!(rt.get_next_timer_at(0), None);
    assert_eq!(rt.get_next_timer(), None);
}

#[test]
fn a_pool_can_have_any_size() {
    let rt: Runtime<u8> = Runtime::with_workers(7);
    assert_eq!(rt.workers(), 7);
    assert_eq!(rt.idle_workers(), 7);
    let none: Runtime<u8> = Runtime::with_workers(0);
    assert_eq!(none.workers(), 0);
    assert_eq!(none.idle_workers(), 0);
}

#[test]
fn identities_count_up_from_1() {
    let mut rt: Runtime<u8> = Runtime::new();
    assert_eq!(rt.generate_cb_identity(), 1);
    assert_eq!(rt.generate_cb_identity(), 2);
    assert_eq!(rt.generate_cb_identity(), 3);
    assert_eq!(rt.registered(), 0);
    assert_eq!(rt.pending_events(), 0);
}

#[test]
fn identities_skip_registered_callbacks() {
    let mut rt: Runtime<u8> = Runtime::new();
    rt.register_epoll_event(1, 0);
    rt.register_epoll_event(2, 0);
    rt.register_epoll_event(4, 0);
    assert_eq!(rt.generate_cb_identity(), 3);
    assert_eq!(rt.generate_cb_identity(), 5);
    rt.set_timeout_at(0, 1, 0);
    assert!(rt.is_registered(6));
    assert!(!rt.is_registered(0));
    assert!(!rt.is_registered(3));
    assert_eq!(rt.registered(), 4);
}

#[test]
fn a_timer_with_no_delay_is_not_run_inline() {
    let mut rt: Runtime<&str> = Runtime::new();
    rt.set_timeout_at(100, 0, "cb");
    assert_eq!(rt.ready(), 0);
    assert_eq!(rt.timers(), 1);
    assert_eq!(rt.pending_events(), 1);
    assert_eq!(rt.next_callback(), None);
    assert_eq!(rt.pending_events(), 1);

    rt.process_expired_timers_at(100);
    assert_eq!(rt.ready(), 1);
    assert_eq!(rt.timers(), 0);
    assert_eq!(rt.next_callback(), Some(("cb", IOResult::Undefined)));
    assert_eq!(rt.pending_events(), 1);
    rt.callback_done();
    assert_eq!(rt.pending_events(), 0);
    assert_eq!(rt.registered(), 0);
}

#[test]
fn a_timer_is_not_due_before_its_deadline() {
    let mut rt: Runtime<&str> = Runtime::new();
    rt.set_timeout_at(100, 50, "cb");
    rt.process_expired_timers_at(149);
    assert_eq!(rt.ready(), 0);
    assert_eq!(rt.get_next_timer_at(149), Some(1));
    assert_eq!(rt.get_next_timer_at(100), Some(50));
    assert_eq!(rt.get_next_timer_at(150), Some(0));
    assert_eq!(rt.get_next_timer_at(1000), Some(0));
    rt.process_expired_timers_at(150);
    assert_eq!(rt.ready(), 1);
    assert_eq!(rt.get_next_timer_at(150), None);
}

#[test]
fn a_deadline_past_the_clock_range_never_falls_due() {
    let mut rt: Runtime<&str> = Runtime::new();
    rt.set_timeout_at(u64::MAX, u64::MAX, "never");
    rt.process_expired_timers_at(u64::MAX);
    assert_eq!(rt.ready(), 0);
    assert_eq!(rt.timers(), 1);
    assert_eq!(rt.get_next_timer_at(u64::MAX), Some(i32::MAX));
}

#[test]
fn timers_that_fall_due_together_run_in_deadline_order() {
    let mut rt: Runtime<&str> = Runtime::new();
    rt.set_timeout_at(0, 30, "c");
    rt.set_timeout_at(0, 10, "a");
    rt.set_timeout_at(0, 20, "b");
    rt.set_timeout_at(0, 10, "a2");
    rt.set_timeout_at(0, 99, "late");
    rt.process_expired_timers_at(30);
    assert_eq!(rt.next_callback(), Some(("a", IOResult::Undefined)));
    assert_eq!(rt.next_callback(), Some(("a2", IOResult::Undefined)));
    assert_eq!(rt.next_callback(), Some(("b", IOResult::Undefined)));
    assert_eq!(rt.next_callback(), Some(("c", IOResult::Undefined)));
    assert_eq!(rt.next_callback(), None);
    assert_eq!(rt.pending_events(), 1);
    assert_eq!(rt.timers(), 1);
}

#[test]
fn n_timers_in_deadline_order_yield_n_callbacks_in_that_order() {
    let mut rt: Runtime<usize> = Runtime::new();
    let n = 50;
    for i in 0..n {
        rt.set_timeout_at(5, (i / 3) as u64, i);
    }
    assert_eq!(rt.pending_events(), n);
    rt.process_expired_timers_at(5 + (n as u64));
    for i in 0..n {
        assert_eq!(rt.next_callback(), Some((i, IOResult::Undefined)));
    }
    assert_eq!(rt.next_callback(), None);
    assert_eq!(rt.pending_events(), 0);
    assert_eq!(rt.registered(), 0);
}

#[test]
fn compute_5_yields_5() {
    let mut rt: Runtime<&str> = Runtime::new();
    Fibonacchi::cal(&mut rt, 5, "cb");
    let sent = rt.register_threadpool_event();
    assert_eq!(sent.len(), 1);
    assert_eq!(
        sent[0],
        Dispatch {
            thread_id: 3,
            task: Task { task: Work::Fibonacci(5), callback_id: 1, kind: ThreadPoolTaskKind::Compute },
        }
    );
    assert_eq!(rt.pending_events(), 1);
    assert!(rt.deliver(work(&sent[0])));
    assert_eq!(rt.next_callback(), Some(("cb", IOResult::Int(5))));
    rt.callback_done();
    assert_eq!(rt.pending_events(), 0);
    assert_eq!(rt.idle_workers(), 4);
}

#[test]
fn compute_10_yields_55() {
    let mut rt: Runtime<&str> = Runtime::new();
    Fibonacchi::cal(&mut rt, 10, "cb");
    let sent = rt.register_threadpool_event();
    assert!(rt.deliver(work(&sent[0])));
    assert_eq!(rt.next_callback(), Some(("cb", IOResult::Int(55))));
}

#[test]
fn reading_a_missing_file_yields_undefined() {
    let mut rt: Runtime<&str> = Runtime::new();
    Fs::read(&mut rt, "missing".to_string(), "cb");
    let sent = rt.register_threadpool_event();
    assert_eq!(sent[0].task.task, Work::ReadFile("missing".to_string()));
    assert!(rt.deliver(work(&sent[0])));
    assert_eq!(rt.next_callback(), Some(("cb", IOResult::Undefined)));
    rt.callback_done();
    assert_eq!(rt.pending_events(), 0);
}

#[test]
fn eight_jobs_on_four_workers_all_complete() {
    let mut rt: Runtime<usize> = Runtime::new();
    for n in 0..8 {
        Fibonacchi::cal(&mut rt, n, n);
    }
    assert_eq!(rt.queued(), 8);

    let mut in_flight: Vec<Dispatch> = rt.register_threadpool_event();
    assert_eq!(in_flight.len(), 4);
    assert_eq!(rt.idle_workers(), 0);
    assert_eq!(rt.queued(), 4);
    assert_eq!(rt.registered(), 4);
    assert_eq!(rt.pending_events(), 8);

    let expected = [0u64, 1, 1, 2, 3, 5, 8, 13];
    let mut done: Vec<usize> = Vec::new();
    while !in_flight.is_empty() {
        assert_eq!(rt.workers() - rt.idle_workers(), in_flight.len());
        assert!(in_flight.len() <= 4);
        let finished = in_flight.remove(0);
        assert!(rt.deliver(work(&finished)));
        let (cb, result) = rt.next_callback().unwrap();
        assert_eq!(result, IOResult::Int(expected[cb]));
        rt.callback_done();
        done.push(cb);
        let more = rt.register_threadpool_event();
        assert!(more.len() <= 1);
        if rt.queued() > 0 {
            assert_eq!(more.len(), 1);
        }
        in_flight.extend(more);
    }
    done.sort();
    assert_eq!(done, vec![0, 1, 2, 3, 4, 5, 6, 7]);
    assert_eq!(rt.pending_events(), 0);
    assert_eq!(rt.registered(), 0);
    assert_eq!(rt.queued(), 0);
    assert_eq!(rt.idle_workers(), 4);
}

#[test]
fn dispatch_hands_the_last_queued_work_to_the_last_idle_worker() {
    let mut rt: Runtime<&str> = Runtime::with_workers(2);
    Fibonacchi::cal(&mut rt, 1, "first");
    Fibonacchi::cal(&mut rt, 2, "second");
    Fibonacchi::cal(&mut rt, 3, "third");
    let sent = rt.register_threadpool_event();
    assert_eq!(sent.len(), 2);
    assert_eq!(sent[0].thread_id, 1);
    assert_eq!(sent[0].task, Task { task: Work::Fibonacci(3), callback_id: 1, kind: ThreadPoolTaskKind::Compute });
    assert_eq!(sent[1].thread_id, 0);
    assert_eq!(sent[1].task, Task { task: Work::Fibonacci(2), callback_id: 2, kind: ThreadPoolTaskKind::Compute });
    assert_eq!(rt.queued(), 1);
    assert_eq!(rt.idle_workers(), 0);
    assert_eq!(rt.register_threadpool_event(), vec![]);

    assert!(rt.deliver(work(&sent[1])));
    let sent = rt.register_threadpool_event();
    assert_eq!(sent.len(), 1);
    assert_eq!(sent[0].thread_id, 0);
    assert_eq!(sent[0].task, Task { task: Work::Fibonacci(1), callback_id: 3, kind: ThreadPoolTaskKind::Compute });
}

#[test]
fn dispatch_without_workers_leaves_the_work_queued() {
    let mut rt: Runtime<&str> = Runtime::with_workers(0);
    Fibonacchi::cal(&mut rt, 1, "cb");
    assert_eq!(rt.register_threadpool_event(), vec![]);
    assert_eq!(rt.queued(), 1);
    assert_eq!(rt.pending_events(), 1);
    assert_eq!(rt.registered(), 0);
}

#[test]
fn http_get_hands_the_response_to_the_callback() {
    let mut rt: Runtime<Box<dyn FnOnce(IOResult) -> IOResult>> = Runtime::new();
    let request = Http::request("example.test", 0);
    assert!(request.starts_with("GET /delay/0/url/http://example.test HTTP/1.1\r\n"));

    let token = rt.generate_cb_identity();
    assert_eq!(token, 1);
    let canned = "OK\r\n\r\n".to_string();
    let user = |result: IOResult| result;
    let wrapped = move |_ready: IOResult| user(IOResult::Text(canned));
    rt.register_epoll_event(token, Box::new(wrapped));
    assert_eq!(rt.pending_events(), 1);

    assert!(rt.deliver(PollEvent::Readiness(token)));
    assert_eq!(rt.pending_events(), 0);
    let (callback, ready) = rt.next_callback().unwrap();
    assert_eq!(ready, IOResult::Undefined);
    assert_eq!(callback(ready), IOResult::Text("OK\r\n\r\n".to_string()));
    rt.callback_done();
    assert_eq!(rt.pending_events(), 0);
    assert_eq!(rt.registered(), 0);
    assert!(rt.next_callback().is_none());
}

#[test]
fn a_completion_frees_its_worker_and_readies_its_callback() {
    let mut rt: Runtime<&str> = Runtime::new();
    Fibonacchi::cal(&mut rt, 7, "cb");
    let sent = rt.register_threadpool_event();
    assert_eq!(rt.idle_workers(), 3);
    assert!(rt.process_threadpool_event(sent[0].thread_id, sent[0].task.callback_id, IOResult::Int(13)));
    assert_eq!(rt.idle_workers(), 4);
    assert_eq!(rt.ready(), 1);
    assert_eq!(rt.pending_events(), 1);
    assert_eq!(rt.next_callback(), Some(("cb", IOResult::Int(13))));
}

#[test]
fn an_event_that_nothing_waits_for_changes_nothing() {
    let mut rt: Runtime<&str> = Runtime::new();
    Fibonacchi::cal(&mut rt, 7, "job");
    let sent = rt.register_threadpool_event();
    rt.set_timeout_at(0, 5, "timer");
    rt.register_epoll_event(9, "io");
    let worker = sent[0].thread_id;
    let job = sent[0].task.callback_id;

    assert!(!rt.deliver(PollEvent::Threadpool(worker, 77, IOResult::Int(1))));
    assert!(!rt.deliver(PollEvent::Threadpool(worker + 1, job, IOResult::Int(1))));
    assert!(!rt.deliver(PollEvent::Threadpool(worker, 9, IOResult::Int(1))));
    assert!(!rt.deliver(PollEvent::Threadpool(worker, 0, IOResult::Int(1))));
    assert!(!rt.deliver(PollEvent::Readiness(77)));
    assert!(!rt.deliver(PollEvent::Readiness(job)));
    assert!(!rt.deliver(PollEvent::Readiness(2)));
    assert!(!rt.deliver(PollEvent::Readiness(0)));
    assert!(!rt.process_epoll_event(job));
    assert!(!rt.process_threadpool_event(worker, 9, IOResult::Undefined));
    assert_eq!(rt.pending_events(), 3);
    assert_eq!(rt.registered(), 3);
    assert_eq!(rt.ready(), 0);
    assert_eq!(rt.idle_workers(), 3);

    assert!(rt.deliver(PollEvent::Threadpool(worker, job, IOResult::Int(13))));
    assert!(!rt.deliver(PollEvent::Threadpool(worker, job, IOResult::Int(13))));
    assert!(rt.deliver(PollEvent::Readiness(9)));
    assert!(!rt.deliver(PollEvent::Readiness(9)));
    assert_eq!(rt.ready(), 2);
    assert_eq!(rt.idle_workers(), 4);
    assert_eq!(rt.pending_events(), 2);
}

#[test]
fn a_timeout_tick_changes_nothing() {
    let mut rt: Runtime<&str> = Runtime::new();
    rt.set_timeout_at(0, 5, "timer");
    assert!(rt.deliver(PollEvent::TimeoutTick));
    assert_eq!(rt.pending_events(), 1);
    assert_eq!(rt.ready(), 0);
    assert_eq!(rt.timers(), 1);
}

#[test]
fn the_ready_list_is_a_stack() {
    let mut rt: Runtime<&str> = Runtime::new();
    Fibonacchi::cal(&mut rt, 1, "one");
    Fibonacchi::cal(&mut rt, 2, "two");
    let sent = rt.register_threadpool_event();
    rt.register_epoll_event(50, "io");
    assert!(rt.deliver(work(&sent[1])));
    assert!(rt.deliver(PollEvent::Readiness(50)));
    assert!(rt.deliver(work(&sent[0])));
    assert_eq!(rt.next_callback(), Some(("two", IOResult::Int(1))));
    assert_eq!(rt.next_callback(), Some(("io", IOResult::Undefined)));
    assert_eq!(rt.next_callback(), Some(("one", IOResult::Int(1))));
    assert_eq!(rt.next_callback(), None);
    assert_eq!(rt.pending_events(), 0);
}

#[test]
fn the_counter_goes_down_after_the_callback_has_returned() {
    let mut rt: Runtime<&str> = Runtime::new();
    rt.set_timeout_at(0, 0, "a");
    rt.set_timeout_at(0, 0, "b");
    rt.process_expired_timers_at(0);
    assert_eq!(rt.pending_events(), 2);
    assert_eq!(rt.next_callback(), Some(("a", IOResult::Undefined)));
    assert_eq!(rt.pending_events(), 2);
    assert_eq!(rt.registered(), 1);
    rt.set_timeout_at(0, 0, "scheduled by a");
    assert_eq!(rt.pending_events(), 3);
    assert_eq!(rt.next_callback(), Some(("b", IOResult::Undefined)));
    assert_eq!(rt.pending_events(), 2);
    rt.callback_done();
    assert_eq!(rt.pending_events(), 1);
    rt.callback_done();
    assert_eq!(rt.pending_events(), 1);
    assert_eq!(rt.registered(), 1);
}

#[test]
fn a_readiness_report_takes_its_callback_off_the_counter_at_once() {
    let mut rt: Runtime<&str> = Runtime::new();
    rt.register_epoll_event(3, "io");
    rt.set_timeout_at(0, 50, "timer");
    assert_eq!(rt.pending_events(), 2);
    assert!(rt.process_epoll_event(3));
    assert_eq!(rt.pending_events(), 1);
    assert_eq!(rt.registered(), 2);
    assert_eq!(rt.next_callback(), Some(("io", IOResult::Undefined)));
    assert_eq!(rt.pending_events(), 1);
    rt.callback_done();
    assert_eq!(rt.pending_events(), 1);
    assert_eq!(rt.registered(), 1);
}

#[test]
fn between_iterations_the_counter_is_the_number_of_live_entries() {
    let mut rt: Runtime<usize> = Runtime::with_workers(1);
    rt.set_timeout_at(0, 1, 0);
    rt.set_timeout_at(0, 2, 1);
    rt.register_epoll_event(40, 2);
    Fibonacchi::cal(&mut rt, 3, 3);
    Fibonacchi::cal(&mut rt, 4, 4);
    assert_eq!(rt.pending_events(), rt.registered() + rt.queued());
    assert_eq!(rt.pending_events(), 5);
    let sent = rt.register_threadpool_event();
    assert_eq!(sent.len(), 1);
    assert_eq!(rt.queued(), 1);
    assert_eq!(rt.pending_events(), rt.registered() + rt.queued());
    assert_eq!(rt.pending_events(), 5);

    rt.process_expired_timers_at(1);
    assert!(rt.deliver(PollEvent::Readiness(40)));
    assert!(rt.deliver(work(&sent[0])));
    assert_eq!(rt.pending_events(), 4);
    assert_eq!(rt.registered(), 4);
    while rt.next_callback().is_some() {}
    rt.callback_done();
    assert_eq!(rt.ready(), 0);
    assert_eq!(rt.pending_events(), rt.registered() + rt.queued());
    assert_eq!(rt.pending_events(), 2);
}

#[test]
fn the_clock_does_not_run_backwards() {
    let rt: Runtime<u8> = Runtime::new();
    let first = rt.now();
    let second = rt.now();
    assert!(first <= second);
}

#[test]
fn timers_on_the_clock_fire_once_their_time_has_passed() {
    let mut rt: Runtime<&str> = Runtime::new();
    rt.set_timeout(10, "a");
    rt.set_timeout(5, "b");
    assert_eq!(rt.pending_events(), 2);
    assert_eq!(rt.timers(), 2);
    let delay = rt.get_next_timer().unwrap();
    assert!(0 <= delay && delay <= 5);
    let start = rt.now();
    while rt.now() < start + 12 {}
    rt.process_expired_timers();
    assert_eq!(rt.next_callback(), Some(("b", IOResult::Undefined)));
    assert_eq!(rt.next_callback(), Some(("a", IOResult::Undefined)));
    assert_eq!(rt.next_callback(), None);
    assert_eq!(rt.pending_events(), 0);
    assert_eq!(rt.get_next_timer(), None);
}

#[test]
fn a_callback_is_handed_out_once() {
    let mut rt: Runtime<&str> = Runtime::new();
    Fibonacchi::cal(&mut rt, 4, "job");
    let sent = rt.register_threadpool_event();
    let token = sent[0].task.callback_id;
    assert!(rt.is_registered(token));
    assert!(rt.deliver(work(&sent[0])));
    assert!(rt.is_registered(token));
    assert_eq!(rt.next_callback(), Some(("job", IOResult::Int(3))));
    assert!(!rt.is_registered(token));
    assert_eq!(rt.next_callback(), None);
    assert!(!rt.deliver(work(&sent[0])));
    assert_eq!(rt.next_callback(), None);
    assert_eq!(rt.ready(), 0);
    assert_eq!(rt.pending_events(), 0);
}

#[test]
fn an_identity_is_free_again_once_its_callback_was_handed_out() {
    let mut rt: Runtime<&str> = Runtime::new();
    rt.register_epoll_event(2, "first");
    assert!(rt.deliver(PollEvent::Readiness(2)));
    assert_eq!(rt.next_callback(), Some(("first", IOResult::Undefined)));
    assert_eq!(rt.generate_cb_identity(), 1);
    assert_eq!(rt.generate_cb_identity(), 2);
    rt.register_epoll_event(2, "second");
    assert!(rt.deliver(PollEvent::Readiness(2)));
    assert_eq!(rt.next_callback(), Some(("second", IOResult::Undefined)));
}

#[test]
fn each_registration_takes_one_unit_of_room() {
    let mut rt: Runtime<u8> = Runtime::new();
    assert_eq!(rt.room(), usize::MAX);
    rt.set_timeout_at(0, 1, 0);
    assert_eq!(rt.room(), usize::MAX - 1);
    rt.register_epoll_event(77, 0);
    assert_eq!(rt.room(), usize::MAX - 2);
    assert_eq!(rt.identities_left(), usize::MAX - 2);
    Fibonacchi::cal(&mut rt, 1, 0);
    assert_eq!(rt.room(), usize::MAX - 3);
    assert_eq!(rt.identities_left(), usize::MAX - 2);
    let sent = rt.register_threadpool_event();
    assert_eq!(rt.room(), usize::MAX - 3);
    assert_eq!(rt.identities_left(), usize::MAX - 3);

    assert!(rt.deliver(PollEvent::Readiness(77)));
    assert_eq!(rt.pending_events(), 2);
    assert_eq!(rt.registered(), 3);
    assert_eq!(rt.room(), usize::MAX - 3);
    assert!(rt.deliver(work(&sent[0])));
    while rt.next_callback().is_some() {}
    rt.callback_done();
    assert_eq!(rt.room(), usize::MAX - 1);
    assert_eq!(rt.identities_left(), usize::MAX - 1);
}
