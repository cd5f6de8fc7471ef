//! What the frame loop decides: how it reacts to what the window reports
//! and to how presenting a frame ended. Performing the reaction is left to
//! whoever owns the window.
use vstd::prelude::*;

verus! {

/// What the window reports.
#[derive(Clone, Copy, Debug, PartialEq, Eq, Structural)]
pub enum WindowSignal {
    /// The user asked to close the window.
    CloseRequested,
    /// The escape key went down.
    EscapePressed,
    /// The window wants its content drawn.
    RedrawRequested,
    /// All pending redraws have been handled.
    RedrawsCleared,
    /// Anything else.
    Other,
}

/// How presenting a frame ended.
#[derive(Clone, Copy, Debug, PartialEq, Eq, Structural)]
pub enum FrameOutcome {
    Presented,
    SurfaceLost,
    SurfaceOutdated,
    OutOfMemory,
    Timeout,
}

/// What the loop does next.
#[derive(Clone, Copy, Debug, PartialEq, Eq, Structural)]
pub enum Reaction {
    /// Leave the loop.
    Exit,
    /// Advance the run by one frame and present it.
    DrawFrame,
    /// Ask the window for another redraw.
    RequestRedraw,
    /// Tell the user that presenting timed out, and go on.
    ReportTimeout,
    /// Go on.
    Nothing,
}

/// The reaction to a window signal: closing and escape leave the loop, a
/// redraw request draws a frame, and once redraws are cleared the next one
/// is requested so that the run never stalls.
pub open spec fn reaction_to(signal: WindowSignal) -> Reaction {
    match signal {
        WindowSignal::CloseRequested => Reaction::Exit,
        WindowSignal::EscapePressed => Reaction::Exit,
        WindowSignal::RedrawRequested => Reaction::DrawFrame,
        WindowSignal::RedrawsCleared => Reaction::RequestRedraw,
        WindowSignal::Other => Reaction::Nothing,
    }
}

/// The reaction to the end of a frame: only running out of memory leaves
/// the loop; a timeout is reported; a lost or outdated surface is skipped.
pub open spec fn reaction_after(outcome: FrameOutcome) -> Reaction {
    match outcome {
        FrameOutcome::Presented => Reaction::Nothing,
        FrameOutcome::SurfaceLost => Reaction::Nothing,
        FrameOutcome::SurfaceOutdated => Reaction::Nothing,
        FrameOutcome::OutOfMemory => Reaction::Exit,
        FrameOutcome::Timeout => Reaction::ReportTimeout,
    }
}

/// Decides what to do about a window signal.
pub fn react(signal: WindowSignal) -> (r: Reaction)
    ensures
        r == reaction_to(signal),
{
    match signal {
        WindowSignal::CloseRequested => Reaction::Exit,
        WindowSignal::EscapePressed => Reaction::Exit,
        WindowSignal::RedrawRequested => Reaction::DrawFrame,
        WindowSignal::RedrawsCleared => Reaction::RequestRedraw,
        WindowSignal::Other => Reaction::Nothing,
    }
}

/// Decides what to do after a frame was presented or failed to be.
pub fn react_after(outcome: FrameOutcome) -> (r: Reaction)
    ensures
        r == reaction_after(outcome),
{
    match outcome {
        FrameOutcome::Presented => Reaction::Nothing,
        FrameOutcome::SurfaceLost => Reaction::Nothing,
        FrameOutcome::SurfaceOutdated => Reaction::Nothing,
        FrameOutcome::OutOfMemory => Reaction::Exit,
        FrameOutcome::Timeout => Reaction::ReportTimeout,
    }
}

} // verus!
