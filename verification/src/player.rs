//! The audio engine's control protocol as a verified state machine. The
//! engine itself lives on its own thread and owns the playback sink; the
//! decisions — what each command does in each state, and what action the
//! engine must take — are made here, on plain values, and the thread only
//! carries them out.

use vstd::prelude::*;
use crate::record::Track;

verus! {

/// The engine's observable state.
pub enum PlayerState {
    Idle,
    Playing,
    Paused,
}

/// A command arriving on the engine's inbound channels.
pub enum Command {
    Play(Track),
    PauseToggle,
    Stop,
}

/// What the engine thread must do with its sink after a transition.
pub enum SinkAction {
    /// Replace the sink and begin decoding this track at once.
    StartTrack(Track),
    /// Pause the current sink.
    Pause,
    /// Resume the paused sink.
    Resume,
    /// Replace the sink with a fresh, silent one.
    Discard,
}

/// One step of the control protocol: Play always wins and discards what ran
/// before; PauseToggle flips Playing and Paused and leaves Idle alone; Stop
/// discards in-flight audio from any state.
pub fn next_state(state: PlayerState, cmd: Command) -> (r: (PlayerState, Option<SinkAction>))
    ensures
        cmd matches Command::Play(t) ==> r.0 is Playing && r.1 == Some(SinkAction::StartTrack(t)),
        cmd is PauseToggle && state is Playing ==> r.0 is Paused && r.1 == Some(SinkAction::Pause),
        cmd is PauseToggle && state is Paused ==> r.0 is Playing && r.1 == Some(
            SinkAction::Resume,
        ),
        cmd is PauseToggle && state is Idle ==> r.0 is Idle && r.1 is None,
        cmd is Stop ==> r.0 is Idle && r.1 == Some(SinkAction::Discard),
{
    match cmd {
        Command::Play(t) => (PlayerState::Playing, Some(SinkAction::StartTrack(t))),
        Command::PauseToggle => {
            match state {
                PlayerState::Playing => (PlayerState::Paused, Some(SinkAction::Pause)),
                PlayerState::Paused => (PlayerState::Playing, Some(SinkAction::Resume)),
                PlayerState::Idle => (PlayerState::Idle, None),
            }
        },
        Command::Stop => (PlayerState::Idle, Some(SinkAction::Discard)),
    }
}

/// The sink finished its track naturally: only a playing engine becomes
/// idle, and only then is the exhaustion notification emitted outward, which
/// is what lets the controller dequeue the next track.
pub fn on_exhausted(state: PlayerState) -> (r: (PlayerState, bool))
    ensures
        state is Playing ==> r.0 is Idle && r.1,
        !(state is Playing) ==> r.0 == state && !r.1,
{
    match state {
        PlayerState::Playing => (PlayerState::Idle, true),
        PlayerState::Paused => (PlayerState::Paused, false),
        PlayerState::Idle => (PlayerState::Idle, false),
    }
}

} // verus!
