//! The reactor's decisions: what to forward to the loop after a wait on the
//! selector.
use crate::pollevent::PollEvent;
use vstd::prelude::*;

verus! {

/// How one wait of the selector ended.
#[derive(Debug, PartialEq, Eq)]
pub enum Selected {
    /// It returned with the identities of the descriptors that are ready,
    /// in the selector's order; none if the timeout ran out first.
    Ready(Vec<usize>),
    /// The selector has been closed.
    Interrupted,
    /// The operating system reported another failure.
    Failed,
}

/// What the reactor does after one wait.
#[derive(Debug, PartialEq, Eq)]
pub enum ReactorStep {
    /// Send these events to the loop, in this order, and wait again.
    Forward(Vec<PollEvent>),
    /// Leave the reactor's loop: it has been closed.
    Exit,
    /// Give up: the failure is fatal.
    Abort,
}

/// The events that report `tokens` ready: one readiness event for each, in
/// the same order, or a single timeout tick where there is none.
pub open spec fn events_for(tokens: Seq<usize>) -> Seq<PollEvent> {
    if tokens.len() == 0 {
        seq![PollEvent::TimeoutTick]
    } else {
        tokens.map_values(|t: usize| PollEvent::Readiness(t))
    }
}

/// Decides what the reactor does with the outcome of one wait.
pub fn reactor_step(selected: Selected) -> (step: ReactorStep)
    ensures
        match selected {
            Selected::Ready(tokens) => step matches ReactorStep::Forward(events) && events@
                == events_for(tokens@),
            Selected::Interrupted => step is Exit,
            Selected::Failed => step is Abort,
        },
{
    match selected {
        Selected::Ready(tokens) => {
            let mut events: Vec<PollEvent> = Vec::new();
            if tokens.len() == 0 {
                events.push(PollEvent::TimeoutTick);
            } else {
                let mut i: usize = 0;
                while i < tokens.len()
                    invariant
                        i <= tokens.len(),
                        events@ == tokens@.take(i as int).map_values(
                            |t: usize| PollEvent::Readiness(t),
                        ),
                    decreases tokens.len() - i,
                {
                    events.push(PollEvent::Readiness(tokens[i]));
                    i = i + 1;
                    assert(events@ =~= tokens@.take(i as int).map_values(
                        |t: usize| PollEvent::Readiness(t),
                    ));
                }
                assert(tokens@.take(tokens.len() as int) =~= tokens@);
            }
            ReactorStep::Forward(events)
        },
        Selected::Interrupted => ReactorStep::Exit,
        Selected::Failed => ReactorStep::Abort,
    }
}

} // verus!
