//! What the game decides at each frame of its main loop.

use vstd::prelude::*;

verus! {

/// What to do in one frame.
#[derive(PartialEq, Eq, Structural, Clone, Copy, Debug)]
pub struct FrameDecision {
    /// The terminal is to close: set once a quit was asked for, and kept.
    pub quitting: bool,
    /// Advance the clock and run the game's systems for one frame.
    pub run_frame: bool,
}

/// Decides one frame. `quit_requested` is whether the game asked to quit,
/// `quitting` whether the terminal is already closing, and `running` whether
/// the game's state machine still has a state to run. The terminal closes once
/// a quit was asked for, and a frame runs only while the state machine runs and
/// the terminal is not closing.
pub fn frame_decision(quit_requested: bool, quitting: bool, running: bool) -> (d: FrameDecision)
    ensures
        d.quitting == (quitting || quit_requested),
        d.run_frame == (running && !d.quitting),
        d == decide(quit_requested, quitting, running),
{
    let quitting = quitting || quit_requested;
    FrameDecision { quitting, run_frame: running && !quitting }
}

/// The decision that `frame_decision` takes.
pub open spec fn decide(quit_requested: bool, quitting: bool, running: bool) -> FrameDecision {
    FrameDecision {
        quitting: quitting || quit_requested,
        run_frame: running && !(quitting || quit_requested),
    }
}

/// Law: once the terminal is closing, it stays closing and no frame of the
/// game runs any more, whatever the later frames see.
pub proof fn lemma_quitting_is_final(
    quit_requested: bool,
    quitting: bool,
    running: bool,
    later_quit_requested: bool,
    later_running: bool,
)
    requires
        decide(quit_requested, quitting, running).quitting,
    ensures
        decide(later_quit_requested, decide(quit_requested, quitting, running).quitting, later_running).quitting,
        !decide(later_quit_requested, decide(quit_requested, quitting, running).quitting, later_running).run_frame,
{
}

} // verus!
