//! Locating the Source 2 game directory (the one holding gameinfo.gi) inside
//! a server directory.

use vstd::prelude::*;

use crate::text::str_eq;

verus! {

/// Parent directory scanned for `<dir>/gameinfo.gi` when the hint misses.
pub const GAME_PARENT: &'static str = "game";

/// The game dir known for a GameAP game code: `game/csgo` for `cs2`.
pub open spec fn known_dir_spec(game_code: Seq<char>) -> Option<Seq<char>> {
    if game_code == "cs2"@ {
        Some("game/csgo"@)
    } else {
        None
    }
}

/// Known game dir for a GameAP game code, tried before scanning.
pub fn known_game_dir(game_code: &str) -> (r: Option<&'static str>)
    ensures
        match known_dir_spec(game_code@) {
            Some(d) => r matches Some(s) && s@ == d,
            None => r is None,
        },
{
    if str_eq(game_code, "cs2") {
        Some("game/csgo")
    } else {
        None
    }
}

} // verus!
