//! The world and the players in it, as far as login needs them.
use vstd::prelude::*;
use crate::utils::Location;

verus! {

/// A player who has joined the world.
pub struct Player {
    pub username: String,
    pub position: Location,
}

/// The world that players join.
pub struct World {}

impl World {
    /// Loads the world.
    pub fn load_world() -> (r: World)
        ensures
            r == (World {}),
    {
        World {}
    }

    /// The player named `username`, placed at the origin.
    pub fn load_player(&self, username: String) -> (r: Player)
        ensures
            r.username == username,
            r.position == Location::spawn(),
    {
        Player { username, position: Location::new(0, 0, 0, 0, 0) }
    }
}

} // verus!
