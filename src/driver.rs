//! Decisions of the incremental scan: whether the frontier advances after a
//! line, and whether an idle tick goes on, yields or finishes.

use vstd::prelude::*;

use crate::parser::LexerState;

verus! {

/// Lines scanned at most per idle tick.
pub const LINES_PER_RPC: usize = 50;

/// What becomes of the frontier after a line was scanned.
#[derive(Clone, Copy, Debug, PartialEq, Eq, Structural)]
pub enum FrontierAction {
    /// Cache `state` as the state at the start of `line_num` and move the
    /// frontier there: more work remains.
    Advance { line_num: usize, state: LexerState },
    /// Close the frontier: the end of the buffer was reached, the line could
    /// not be read, or the scan converged.
    Close,
}

/// The scan has converged: the state computed for the next line is the one
/// already cached for it.
pub open spec fn converged(candidate: Option<(LexerState, usize)>, cached: Option<LexerState>) -> bool {
    candidate matches Some(c) && cached == Some(c.0)
}

pub open spec fn frontier_spec(candidate: Option<(LexerState, usize)>, cached: Option<LexerState>) -> FrontierAction {
    match candidate {
        Some(c) => if converged(candidate, cached) {
            FrontierAction::Close
        } else {
            FrontierAction::Advance { line_num: c.1, state: c.0 }
        },
        None => FrontierAction::Close,
    }
}

/// Decides the frontier from the next-line candidate of a scanned line and
/// the state cached for that next line.
pub fn frontier_action(candidate: Option<(LexerState, usize)>, cached: Option<LexerState>) -> (r: FrontierAction)
    ensures
        r == frontier_spec(candidate, cached),
{
    match candidate {
        Some((state, line_num)) => {
            let same = match cached {
                Some(old_state) => old_state == state,
                None => false,
            };
            if same {
                FrontierAction::Close
            } else {
                FrontierAction::Advance { line_num, state }
            }
        },
        None => FrontierAction::Close,
    }
}

/// How an idle tick proceeds after a line.
#[derive(Clone, Copy, Debug, PartialEq, Eq, Structural)]
pub enum TickStep {
    /// Scan the next line.
    Continue,
    /// Flush and ask to be scheduled again.
    Yield,
    /// Flush and stop: nothing more to do until the next edit.
    Finish,
}

pub open spec fn tick_spec(done: usize, more_work: bool, request_pending: bool) -> TickStep {
    if !more_work {
        TickStep::Finish
    } else if request_pending || done >= LINES_PER_RPC {
        TickStep::Yield
    } else {
        TickStep::Continue
    }
}

/// Decides the next step of an idle tick after its `done`-th line, given
/// whether that line left more work and whether a request is waiting.
pub fn tick_step(done: usize, more_work: bool, request_pending: bool) -> (r: TickStep)
    ensures
        r == tick_spec(done, more_work, request_pending),
{
    if !more_work {
        TickStep::Finish
    } else if request_pending || done >= LINES_PER_RPC {
        TickStep::Yield
    } else {
        TickStep::Continue
    }
}

} // verus!
