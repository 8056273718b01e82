use async_with_callback::ioresult::IOResult;
use async_with_callback::runtime::Runtime;
use async_with_callback::task::{
    Fibonacchi, Fs, Task, ThreadPoolTaskKind, Timeout, Work, WorkerStep,
};

#[test]
fn fibonacci_of_5_is_5() {
    assert_eq!(Fibonacchi::evaluate(5), IOResult::Int(5));
}

#[test]
fn fibonacci_of_10_is_55() {
    assert_eq!(Fibonacchi::evaluate(10), IOResult::Int(55));
}

#[test]
fn fibonacci_starts_0_1_1_2_3() {
    assert_eq!(Fibonacchi::evaluate(0), IOResult::Int(0));
    assert_eq!(Fibonacchi::evaluate(1), IOResult::Int(1));
    assert_eq!(Fibonacchi::evaluate(2), IOResult::Int(1));
    assert_eq!(Fibonacchi::evaluate(3), IOResult::Int(2));
    assert_eq!(Fibonacchi::evaluate(4), IOResult::Int(3));
    assert_eq!(Fibonacchi::evaluate(15), IOResult::Int(610));
    assert_eq!(Fibonacchi::evaluate(20), IOResult::Int(6765));
}

#[test]
fn fibonacci_that_does_not_fit_is_undefined() {
    assert_eq!(Fibonacchi::evaluate(93), IOResult::Int(12200160415121876738));
    assert_eq!(Fibonacchi::evaluate(94), IOResult::Undefined);
    assert_eq!(Fibonacchi::evaluate(1000), IOResult::Undefined);
    assert_eq!(Fibonacchi::evaluate(usize::MAX), IOResult::Undefined);
}

#[test]
fn the_closing_task_has_no_work_and_identity_0() {
    let close = Task::close();
    assert_eq!(close.task, Work::Nothing);
    assert_eq!(close.callback_id, 0);
    assert_eq!(close.kind, ThreadPoolTaskKind::Close);
}

#[test]
fn a_worker_exits_on_the_closing_task() {
    assert_eq!(Task::close().step(), WorkerStep::Exit);
    let odd = Task { task: Work::Fibonacci(3), callback_id: 9, kind: ThreadPoolTaskKind::Close };
    assert_eq!(odd.step(), WorkerStep::Exit);
}

#[test]
fn a_worker_runs_any_other_task() {
    let compute =
        Task { task: Work::Fibonacci(10), callback_id: 3, kind: ThreadPoolTaskKind::Compute };
    assert_eq!(compute.step(), WorkerStep::Run(Work::Fibonacci(10), 3));
    let read = Task {
        task: Work::ReadFile("README.md".to_string()),
        callback_id: 4,
        kind: ThreadPoolTaskKind::FileRead,
    };
    assert_eq!(read.step(), WorkerStep::Run(Work::ReadFile("README.md".to_string()), 4));
}

#[test]
fn work_that_needs_nothing_from_outside_is_evaluated() {
    assert_eq!(Work::Nothing.evaluate(), Some(IOResult::Undefined));
    assert_eq!(Work::Fibonacci(10).evaluate(), Some(IOResult::Int(55)));
    assert_eq!(Work::Fibonacci(94).evaluate(), Some(IOResult::Undefined));
    assert_eq!(Work::ReadFile("missing".to_string()).evaluate(), None);
}

#[test]
fn a_failed_read_is_contained_as_undefined() {
    assert_eq!(Fs::result(None), IOResult::Undefined);
    assert_eq!(Fs::result(Some("text".to_string())), IOResult::Text("text".to_string()));
    assert_eq!(Fs::result(Some(String::new())), IOResult::Text(String::new()));
}

#[test]
fn kinds_have_names() {
    assert_eq!(ThreadPoolTaskKind::Close.name(), "Close");
    assert_eq!(ThreadPoolTaskKind::FileRead.name(), "FileRead");
    assert_eq!(ThreadPoolTaskKind::Compute.name(), "Compute");
}

#[test]
fn the_facade_queues_work_and_counts_it_as_pending() {
    let mut rt: Runtime<u8> = Runtime::new();
    Fs::read(&mut rt, "README.md".to_string(), 1);
    Fibonacchi::cal(&mut rt, 5, 2);
    assert_eq!(rt.queued(), 2);
    assert_eq!(rt.pending_events(), 2);
    assert_eq!(rt.registered(), 0);
    assert_eq!(rt.idle_workers(), 4);

    let sent = rt.register_threadpool_event();
    assert_eq!(sent.len(), 2);
    assert_eq!(sent[0].task.task, Work::Fibonacci(5));
    assert_eq!(sent[0].task.kind, ThreadPoolTaskKind::Compute);
    assert_eq!(sent[1].task.task, Work::ReadFile("README.md".to_string()));
    assert_eq!(sent[1].task.kind, ThreadPoolTaskKind::FileRead);
    assert_eq!(rt.pending_events(), 2);
    assert_eq!(rt.registered(), 2);
    assert_eq!(rt.queued(), 0);
}

#[test]
fn the_facade_registers_a_timer() {
    let mut rt: Runtime<u8> = Runtime::new();
    Timeout::set_timeout(&mut rt, 0, 1);
    assert_eq!(rt.pending_events(), 1);
    assert_eq!(rt.timers(), 1);
    assert_eq!(rt.ready(), 0);
    assert!(rt.is_registered(1));
}
