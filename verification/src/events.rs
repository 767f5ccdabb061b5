//! Run event multiplexer.
//!
//! A run reports its progress as a single, strictly ordered stream of
//! heterogeneous events. However events are produced, they pass through one
//! `EventLog`, the single writer of the stream; its well-formedness pins the
//! terminal-event discipline: the finishing event appears exactly once, and
//! only as the last event of a finished stream.
use vstd::prelude::*;

verus! {

/// A run-aborting error, tagged by the phase that produced it. The three
/// phases are mutually exclusive for one run.
pub enum StarlarkError {
    /// The script could not be parsed into a plan; nothing was executed.
    InterpretationError { message: Vec<u8> },
    /// The plan is semantically invalid; nothing was executed.
    ValidationError { message: Vec<u8> },
    /// An instruction's real side effect failed; earlier effects remain.
    ExecutionError { message: Vec<u8> },
}

/// One event of a run's output stream, exactly one kind per event.
/// Instruction payloads reference the run's instruction list by index.
pub enum RunEvent {
    /// An instruction is about to run (or was skipped).
    Instruction { index: usize, is_skipped: bool },
    /// The outcome payload of one executed instruction.
    InstructionResult { index: usize, serialized_result: Vec<u8> },
    /// Current step over total steps.
    ProgressInfo { current_step: usize, total_steps: usize },
    Warning { message: Vec<u8> },
    Info { message: Vec<u8> },
    /// A run-aborting error; followed only by the terminal event.
    Error { error: StarlarkError },
    /// Terminal event: success flag and optional serialized output.
    RunFinishedEvent { is_run_successful: bool, serialized_output: Option<Vec<u8>> },
}

/// Whether an event is the terminal event of a stream.
pub open spec fn is_terminal(e: RunEvent) -> bool {
    e is RunFinishedEvent
}

/// The single ordered output stream of one run.
pub struct EventLog {
    pub events: Vec<RunEvent>,
    pub finished: bool,
}

impl EventLog {
    /// Stream discipline: an unfinished stream holds no terminal event; a
    /// finished stream ends with its one and only terminal event.
    pub open spec fn wf(&self) -> bool {
        &&& !self.finished ==> forall|i: int|
            0 <= i < self.events@.len() ==> !is_terminal(#[trigger] self.events@[i])
        &&& self.finished ==> self.events@.len() > 0 && is_terminal(self.events@.last()) && (
        forall|i: int| 0 <= i < self.events@.len() - 1 ==> !is_terminal(#[trigger] self.events@[i]))
    }

    pub fn new() -> (log: Self)
        ensures
            log.wf(),
            !log.finished,
            log.events@.len() == 0,
    {
        EventLog { events: Vec::new(), finished: false }
    }

    /// Publish one non-terminal event onto the stream.
    pub fn emit(&mut self, e: RunEvent)
        requires
            old(self).wf(),
            !old(self).finished,
            !is_terminal(e),
        ensures
            final(self).wf(),
            !final(self).finished,
            final(self).events@ == old(self).events@.push(e),
    {
        self.events.push(e);
    }

    /// Publish the terminal event and close the stream.
    pub fn finish(&mut self, is_run_successful: bool, serialized_output: Option<Vec<u8>>)
        requires
            old(self).wf(),
            !old(self).finished,
        ensures
            final(self).wf(),
            final(self).finished,
            final(self).events@ == old(self).events@.push(
                RunEvent::RunFinishedEvent { is_run_successful, serialized_output },
            ),
            final(self).events@.last() == (RunEvent::RunFinishedEvent {
                is_run_successful,
                serialized_output,
            }),
    {
        self.events.push(RunEvent::RunFinishedEvent { is_run_successful, serialized_output });
        self.finished = true;
    }
}

/// The terminal event occurs exactly once and strictly last in every
/// finished stream: an event is terminal exactly when it is the final one.
pub proof fn lemma_terminal_exactly_once_and_last(log: EventLog)
    requires
        log.wf(),
        log.finished,
    ensures
        log.events@.len() > 0,
        forall|i: int|
            0 <= i < log.events@.len() ==> (is_terminal(#[trigger] log.events@[i]) <==> i
                == log.events@.len() - 1),
{
}

} // verus!
