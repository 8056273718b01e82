//! Work for the worker pool, the tasks that carry it, and the calls that
//! schedule it.
use crate::ioresult::IOResult;
use crate::runtime::Runtime;
use vstd::prelude::*;

verus! {

/// What sort of job a worker has been handed.
#[derive(Clone, Copy, Debug, PartialEq, Eq, Structural)]
pub enum ThreadPoolTaskKind {
    /// Tells the worker to leave its loop.
    Close,
    /// A blocking read of a whole file.
    FileRead,
    /// A CPU-bound computation.
    Compute,
}

impl ThreadPoolTaskKind {
    /// The kind's name, for a log line.
    pub fn name(&self) -> (s: String)
        ensures
            s@ == (match *self {
                ThreadPoolTaskKind::Close => "Close"@,
                ThreadPoolTaskKind::FileRead => "FileRead"@,
                ThreadPoolTaskKind::Compute => "Compute"@,
            }),
    {
        match self {
            ThreadPoolTaskKind::Close => String::from_str("Close"),
            ThreadPoolTaskKind::FileRead => String::from_str("FileRead"),
            ThreadPoolTaskKind::Compute => String::from_str("Compute"),
        }
    }
}

/// A description of the job itself: what a worker is to do off the loop's
/// thread.
#[derive(Debug, PartialEq, Eq)]
pub enum Work {
    /// Nothing to do; the result is `Undefined`.
    Nothing,
    /// Read the file at this path to its end; the result is its text.
    ReadFile(String),
    /// Compute the Fibonacci number of this index; the result is that number.
    Fibonacci(usize),
}

/// A job on its way to a worker, labelled with the identity of the callback
/// that waits for its result.
#[derive(Debug, PartialEq, Eq)]
pub struct Task {
    pub task: Work,
    pub callback_id: usize,
    pub kind: ThreadPoolTaskKind,
}

impl Task {
    /// The sentinel that ends a worker: no work, the reserved identity 0.
    pub fn close() -> (t: Task)
        ensures
            t == (Task { task: Work::Nothing, callback_id: 0, kind: ThreadPoolTaskKind::Close }),
    {
        Task { task: Work::Nothing, callback_id: 0, kind: ThreadPoolTaskKind::Close }
    }
}

/// What a worker does with a task it has received.
#[derive(Debug, PartialEq, Eq)]
pub enum WorkerStep {
    /// Leave the worker's loop.
    Exit,
    /// Do the work, then report its result under the identity.
    Run(Work, usize),
}

impl Task {
    /// Decides what the worker does with the task: one of kind `Close`
    /// ends the worker, any other is run.
    pub fn step(self) -> (step: WorkerStep)
        ensures
            step == (if self.kind == ThreadPoolTaskKind::Close {
                WorkerStep::Exit
            } else {
                WorkerStep::Run(self.task, self.callback_id)
            }),
    {
        match self.kind {
            ThreadPoolTaskKind::Close => WorkerStep::Exit,
            _ => WorkerStep::Run(self.task, self.callback_id),
        }
    }
}

impl Work {
    /// What the work yields, where it needs nothing from outside: no work
    /// yields `Undefined`, a computation its number. Reading a file is left
    /// to the caller, who hands what was read to `Fs::result`.
    pub fn evaluate(&self) -> (r: Option<IOResult>)
        ensures
            r == (match *self {
                Work::Nothing => Some(IOResult::Undefined),
                Work::ReadFile(_) => None,
                Work::Fibonacci(n) => Some(fib_result(n as nat)),
            }),
    {
        match self {
            Work::Nothing => Some(IOResult::Undefined),
            Work::ReadFile(_) => None,
            Work::Fibonacci(n) => Some(Fibonacchi::evaluate(*n)),
        }
    }
}

/// The Fibonacci numbers: 0, 1, 1, 2, 3, 5, ...
pub open spec fn fib(n: nat) -> nat
    decreases n,
{
    if n == 0 {
        0
    } else if n == 1 {
        1
    } else {
        fib((n - 1) as nat) + fib((n - 2) as nat)
    }
}

/// The Fibonacci numbers never decrease.
pub proof fn lemma_fib_monotonic(i: nat, j: nat)
    requires
        i <= j,
    ensures
        fib(i) <= fib(j),
    decreases j,
{
    if i < j {
        if j >= 2 {
            lemma_fib_monotonic(i, (j - 1) as nat);
        } else {
            assert(i == 0 && j == 1);
        }
    }
}

/// What computing the `n`-th Fibonacci number yields: the number, or
/// `Undefined` where it does not fit in 64 bits.
pub open spec fn fib_result(n: nat) -> IOResult {
    if fib(n) <= u64::MAX {
        IOResult::Int(fib(n) as u64)
    } else {
        IOResult::Undefined
    }
}

/// CPU-bound work: Fibonacci numbers.
pub struct Fibonacchi;

impl Fibonacchi {
    /// Schedules the computation of the `n`-th Fibonacci number on the
    /// worker pool; `cb` gets the number.
    pub fn cal<C>(rt: &mut Runtime<C>, n: usize, cb: C)
        requires
            old(rt).wf(),
            old(rt)@.can_count(),
        ensures
            final(rt).wf(),
            final(rt)@ == old(rt)@.enqueue(Work::Fibonacci(n), ThreadPoolTaskKind::Compute, cb),
    {
        rt.register_event_threadpool(Work::Fibonacci(n), ThreadPoolTaskKind::Compute, cb);
    }

    /// Computes the `n`-th Fibonacci number.
    pub fn evaluate(n: usize) -> (r: IOResult)
        ensures
            r == fib_result(n as nat),
    {
        if n == 0 {
            return IOResult::Int(0);
        }
        let mut prev: u64 = 0;
        let mut cur: u64 = 1;
        let mut i: usize = 1;
        while i < n
            invariant
                1 <= i <= n,
                prev == fib((i - 1) as nat),
                cur == fib(i as nat),
            decreases n - i,
        {
            match cur.checked_add(prev) {
                Some(next) => {
                    prev = cur;
                    cur = next;
                    i = i + 1;
                },
                None => {
                    proof {
                        assert(fib((i + 1) as nat) == fib(i as nat) + fib((i - 1) as nat));
                        lemma_fib_monotonic((i + 1) as nat, n as nat);
                    }
                    return IOResult::Undefined;
                },
            }
        }
        IOResult::Int(cur)
    }
}

/// Blocking file reads.
pub struct Fs;

impl Fs {
    /// Schedules a read of the whole file at `path` on the worker pool; `cb`
    /// gets its text.
    pub fn read<C>(rt: &mut Runtime<C>, path: String, cb: C)
        requires
            old(rt).wf(),
            old(rt)@.can_count(),
        ensures
            final(rt).wf(),
            final(rt)@ == old(rt)@.enqueue(Work::ReadFile(path), ThreadPoolTaskKind::FileRead, cb),
    {
        rt.register_event_threadpool(Work::ReadFile(path), ThreadPoolTaskKind::FileRead, cb);
    }

    /// What a read yields: the text that was read, or `Undefined` where the
    /// read failed.
    pub fn result(contents: Option<String>) -> (r: IOResult)
        ensures
            r == (match contents {
                Some(text) => IOResult::Text(text),
                None => IOResult::Undefined,
            }),
    {
        match contents {
            Some(text) => IOResult::Text(text),
            None => IOResult::Undefined,
        }
    }
}

/// Timers.
pub struct Timeout;

impl Timeout {
    /// Schedules `cb` to run once `ms` milliseconds have passed on the
    /// loop's clock. It is not run here, even where `ms` is 0.
    pub fn set_timeout<C>(rt: &mut Runtime<C>, ms: u64, cb: C)
        requires
            old(rt).wf(),
            old(rt)@.room() >= 1,
        ensures
            final(rt).wf(),
            exists|now: u64| final(rt)@ == old(rt)@.set_timeout_at(now, ms, cb),
    {
        rt.set_timeout(ms, cb);
    }
}

} // verus!
