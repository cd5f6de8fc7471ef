use physarum::control::{react, react_after, FrameOutcome, Reaction, WindowSignal};

#[test]
fn closing_and_escape_leave_the_loop() {
    assert_eq!(react(WindowSignal::CloseRequested), Reaction::Exit);
    assert_eq!(react(WindowSignal::EscapePressed), Reaction::Exit);
}

#[test]
fn redraw_request_draws_a_frame() {
    assert_eq!(react(WindowSignal::RedrawRequested), Reaction::DrawFrame);
}

#[test]
fn cleared_redraws_request_the_next() {
    assert_eq!(react(WindowSignal::RedrawsCleared), Reaction::RequestRedraw);
}

#[test]
fn other_signals_are_ignored() {
    assert_eq!(react(WindowSignal::Other), Reaction::Nothing);
}

#[test]
fn only_memory_exhaustion_ends_the_loop_after_a_frame() {
    assert_eq!(react_after(FrameOutcome::Presented), Reaction::Nothing);
    assert_eq!(react_after(FrameOutcome::SurfaceLost), Reaction::Nothing);
    assert_eq!(react_after(FrameOutcome::SurfaceOutdated), Reaction::Nothing);
    assert_eq!(react_after(FrameOutcome::OutOfMemory), Reaction::Exit);
    assert_eq!(react_after(FrameOutcome::Timeout), Reaction::ReportTimeout);
}
