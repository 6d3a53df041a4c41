//! Which mode the game is in, and how key presses change it.
//!
//! These are decisions only: the caller reads the keyboard, asks here what
//! follows, and sets the state it is told.

use vstd::prelude::*;

verus! {

/// Where the game takes place.
#[derive(Clone, Copy, Debug, PartialEq, Eq, Hash)]
pub enum GameworldState {
    Island,
    Ocean,
    Dungeon,
}

/// Whether the game runs or the player is in the shop.
#[derive(Clone, Copy, Debug, PartialEq, Eq, Hash)]
pub enum GameState {
    Running,
    InShop,
}

/// The world to switch to for the keys that were just pressed, if any.
pub open spec fn spec_change_gameworld_state(
    key_i: bool,
    key_o: bool,
    key_u: bool,
) -> Option<GameworldState> {
    if key_i {
        Some(GameworldState::Island)
    } else if key_o {
        Some(GameworldState::Ocean)
    } else if key_u {
        Some(GameworldState::Dungeon)
    } else {
        None
    }
}

/// The game state to switch to when `E` was or was not just pressed, if
/// any.
pub open spec fn spec_change_game_state(
    game_state: GameState,
    gameworld_state: GameworldState,
    key_e: bool,
) -> Option<GameState> {
    if !key_e {
        None
    } else {
        match game_state {
            GameState::Running => if gameworld_state != GameworldState::Ocean {
                Some(GameState::InShop)
            } else {
                None
            },
            GameState::InShop => Some(GameState::Running),
        }
    }
}

/// Decides the change of world: `I` leads to the island, `O` to the ocean,
/// `U` to the dungeon.  When several were pressed at once the first of these
/// counts; with none pressed the world stays.
#[verifier::when_used_as_spec(spec_change_gameworld_state)]
pub fn change_gameworld_state(key_i: bool, key_o: bool, key_u: bool) -> (next: Option<GameworldState>)
    ensures
        next == spec_change_gameworld_state(key_i, key_o, key_u),
{
    if key_i {
        Some(GameworldState::Island)
    } else if key_o {
        Some(GameworldState::Ocean)
    } else if key_u {
        Some(GameworldState::Dungeon)
    } else {
        None
    }
}

/// Decides the change of game state on `E`: it opens the shop while the game
/// runs on the island or in the dungeon, and closes it again wherever it is
/// open.  At sea there is no shop to open.
#[verifier::when_used_as_spec(spec_change_game_state)]
pub fn change_game_state(
    game_state: GameState,
    gameworld_state: GameworldState,
    key_e: bool,
) -> (next: Option<GameState>)
    ensures
        next == spec_change_game_state(game_state, gameworld_state, key_e),
{
    if !key_e {
        return None;
    }
    match game_state {
        GameState::Running => match gameworld_state {
            GameworldState::Island => Some(GameState::InShop),
            GameworldState::Dungeon => Some(GameState::InShop),
            GameworldState::Ocean => None,
        },
        GameState::InShop => Some(GameState::Running),
    }
}

} // verus!
