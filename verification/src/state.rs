//! Which screen the game shows.

use vstd::prelude::*;

verus! {

/// The screen that the game shows: the menu of levels or a level being
/// played.
#[derive(Clone, Copy, Debug, PartialEq, Eq, Structural)]
pub enum GameState {
    MainMenu,
    Game,
}

impl Default for GameState {
    /// The game begins in the menu.
    fn default() -> (state: GameState)
        ensures
            state == GameState::MainMenu,
    {
        GameState::MainMenu
    }
}

} // verus!
