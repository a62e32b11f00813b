//! Bookkeeping for the multi-worker fuzzing loop: classification of an
//! external tool's result, the per-worker state machine, and the shared case
//! counter that a reporter samples for throughput.

use vstd::prelude::*;

use crate::emulator::ExecFault;
use crate::mem::{MemError, Mmu, VirtAddr};

verus! {

/// The exit code with which the external analysis tool rejects an input;
/// such a termination is benign, not a finding.
pub const REJECT_EXIT_CODE: i32 = 1;

/// What running the external tool on one case produced, as plain values:
/// an exit code, a termination by signal, or no run at all because the tool
/// could not be started.
#[derive(Clone, Copy, Debug, PartialEq, Eq, Structural)]
pub enum ToolResult {
    Exited(i32),
    Signaled,
    FailedToStart,
}

/// The classification of one case's outcome.
#[derive(Clone, Copy, Debug, PartialEq, Eq, Structural)]
pub enum Outcome {
    /// Normal termination, or the tool rejecting the input.
    Benign,
    /// Any other abnormal termination: worth persisting.
    Interesting,
    /// The tool itself failed to run; the case is skipped, the worker goes
    /// on.
    ToolError,
}

/// The reference classification policy: exit code zero and the rejection
/// code are benign, every other exit code and every signal is interesting,
/// and a tool that would not start is a tool error.
pub open spec fn classify_spec(res: ToolResult) -> Outcome {
    match res {
        ToolResult::Exited(code) => if code == 0 || code == REJECT_EXIT_CODE {
            Outcome::Benign
        } else {
            Outcome::Interesting
        },
        ToolResult::Signaled => Outcome::Interesting,
        ToolResult::FailedToStart => Outcome::ToolError,
    }
}

/// Maps an external-process result to its classification, exactly as
/// `classify_spec` states.
pub fn classify(res: ToolResult) -> (o: Outcome)
    ensures
        o == classify_spec(res),
{
    match res {
        ToolResult::Exited(code) => if code == 0 || code == REJECT_EXIT_CODE {
            Outcome::Benign
        } else {
            Outcome::Interesting
        },
        ToolResult::Signaled => Outcome::Interesting,
        ToolResult::FailedToStart => Outcome::ToolError,
    }
}

/// The monotonic case counter shared by the workers; a reporter reads it
/// periodically to compute throughput, and nothing ever resets it.
pub struct Tracker {
    cases_processed: u64,
}

impl Tracker {
    /// Cases recorded so far.
    pub closed spec fn count(&self) -> u64 {
        self.cases_processed
    }

    /// A fresh counter at zero.
    pub fn new() -> (t: Tracker)
        ensures
            t.count() == 0,
    {
        Tracker { cases_processed: 0 }
    }

    /// Records `n` more processed cases. The counter only ever grows.
    pub fn record_cases(&mut self, n: u64)
        requires
            old(self).count() + n <= u64::MAX,
        ensures
            final(self).count() == old(self).count() + n,
    {
        self.cases_processed = self.cases_processed + n;
    }

    /// The current total, monotonic over the counter's lifetime.
    pub fn cases_processed(&self) -> (c: u64)
        ensures
            c == self.count(),
    {
        self.cases_processed
    }
}

/// Where a worker stands in its loop.
#[derive(Clone, Copy, Debug, PartialEq, Eq, Structural)]
pub enum WorkerPhase {
    /// Ready to pick the next corpus entry.
    Idle,
    /// The case's input is placed; the executor (or external tool) runs.
    Executing,
    /// The outcome is classified; the space awaits its reset.
    Resetting,
}

/// One worker's loop state: its phase and its round-robin cursor into the
/// corpus. The worker owns its forked address space exclusively; this
/// machine only decides, while the caller performs the actions — writing
/// the input, running the executor, resetting the space.
pub struct Worker {
    phase: WorkerPhase,
    next_entry: usize,
    corpus_len: usize,
}

impl Worker {
    /// The worker's current phase.
    pub closed spec fn phase(&self) -> WorkerPhase {
        self.phase
    }

    /// The corpus entry the next case will use.
    pub closed spec fn next_entry(&self) -> usize {
        self.next_entry
    }

    /// Size of the corpus this worker sweeps.
    pub closed spec fn corpus_len(&self) -> usize {
        self.corpus_len
    }

    /// The cursor always points at a corpus entry.
    pub open spec fn wf(&self) -> bool {
        self.next_entry() < self.corpus_len()
    }

    /// A worker at the start of its loop, about to take the first corpus
    /// entry. The corpus is loaded once and never empty.
    pub fn new(corpus_len: usize) -> (w: Worker)
        requires
            corpus_len > 0,
        ensures
            w.wf(),
            w.phase() == WorkerPhase::Idle,
            w.next_entry() == 0,
            w.corpus_len() == corpus_len,
    {
        Worker { phase: WorkerPhase::Idle, next_entry: 0, corpus_len }
    }

    /// Begins the next case: yields the corpus entry to use, advances the
    /// round-robin cursor, and moves to `Executing`.
    pub fn begin_case(&mut self) -> (idx: usize)
        requires
            old(self).wf(),
            old(self).phase() == WorkerPhase::Idle,
        ensures
            final(self).wf(),
            final(self).phase() == WorkerPhase::Executing,
            idx == old(self).next_entry(),
            idx < old(self).corpus_len(),
            final(self).corpus_len() == old(self).corpus_len(),
            final(self).next_entry() == (old(self).next_entry() + 1) % (
            old(self).corpus_len() as int),
    {
        let idx = self.next_entry;
        self.next_entry = (self.next_entry + 1) % self.corpus_len;
        self.phase = WorkerPhase::Executing;
        idx
    }

    /// Takes the case's classified outcome and moves to `Resetting`; the
    /// returned flag says whether the triggering input should be persisted.
    pub fn finish_execution(&mut self, outcome: Outcome) -> (persist: bool)
        requires
            old(self).wf(),
            old(self).phase() == WorkerPhase::Executing,
        ensures
            final(self).wf(),
            final(self).phase() == WorkerPhase::Resetting,
            final(self).next_entry() == old(self).next_entry(),
            final(self).corpus_len() == old(self).corpus_len(),
            persist == (outcome == Outcome::Interesting),
    {
        self.phase = WorkerPhase::Resetting;
        match outcome {
            Outcome::Interesting => true,
            _ => false,
        }
    }

    /// Acknowledges that the space has been reset to its baseline: counts
    /// the case and returns to `Idle` for the next one.
    pub fn complete_reset(&mut self, tracker: &mut Tracker)
        requires
            old(self).wf(),
            old(self).phase() == WorkerPhase::Resetting,
            old(tracker).count() < u64::MAX,
        ensures
            final(self).wf(),
            final(self).phase() == WorkerPhase::Idle,
            final(self).next_entry() == old(self).next_entry(),
            final(self).corpus_len() == old(self).corpus_len(),
            final(tracker).count() == old(tracker).count() + 1,
    {
        self.phase = WorkerPhase::Idle;
        tracker.record_cases(1);
    }
}

/// The first action of a case: write the corpus entry into the designated
/// input buffer of the worker's private space. A failure to fit or a
/// permission failure is a fault classified for this case alone, never a
/// crash of the worker.
pub fn write_case_input(space: &mut Mmu, addr: VirtAddr, input: &[u8]) -> (r: Option<ExecFault>)
    requires
        old(space).wf(),
    ensures
        final(space).wf(),
        match r {
            None => old(space)@.can_write(addr.0 as int, input@.len() as int) && final(space)@
                == old(space)@.after_write(addr.0 as int, input@),
            Some(ExecFault::MemoryFault(e)) => {
                &&& !(old(space)@.can_write(addr.0 as int, input@.len() as int))
                &&& (e == MemError::OutOfBounds <==> !old(space)@.in_bounds(
                    addr.0 as int,
                    input@.len() as int,
                ))
                &&& e != MemError::OutOfMemory
                &&& final(space)@ == old(space)@
            },
            Some(ExecFault::UnknownOpcode(_)) => false,
        },
{
    match space.write_from(addr, input) {
        Ok(()) => None,
        Err(e) => Some(ExecFault::MemoryFault(e)),
    }
}

} // verus!
