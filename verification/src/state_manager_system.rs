//! Whose turn it is.

use vstd::prelude::*;

verus! {

/// The phases of the game.
#[derive(PartialEq, Eq, Structural, Copy, Clone, Debug, Hash)]
pub enum GameState {
    /// The map is being built.
    PreRun,
    /// The game runs.
    Running,
    /// The game waits for the player to act.
    AwaitingInput,
    /// The player has acted and the world answers.
    PlayerTurn,
}

/// What follows a phase once its systems have run.
pub open spec fn following(state: GameState) -> GameState {
    match state {
        GameState::PlayerTurn => GameState::AwaitingInput,
        other => other,
    }
}

/// The phase that follows `state`, and whether the end of a turn is to be
/// written to the game log: after the player's turn the game waits for input
/// again; every other phase lasts until something else ends it.
pub fn state_manager(state: GameState) -> (next: (GameState, bool))
    ensures
        next.0 == following(state),
        next.1 == (state == GameState::PlayerTurn),
{
    match state {
        GameState::AwaitingInput => (GameState::AwaitingInput, false),
        GameState::PlayerTurn => (GameState::AwaitingInput, true),
        GameState::PreRun => (GameState::PreRun, false),
        GameState::Running => (GameState::Running, false),
    }
}

} // verus!
