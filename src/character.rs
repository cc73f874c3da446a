//! Playable characters.

use vstd::prelude::*;

verus! {

/// How many characters one player may have.
pub const MAX_CHARACTERS_PER_PLAYER: usize = 8;

/// The identity of a character.
#[derive(Copy, Clone, Debug, PartialEq, Eq, Hash, PartialOrd, Ord)]
pub struct CharacterId(pub i64);

/// The least data needed to create a new character on the server.
#[derive(Clone, Debug, PartialEq, Eq)]
pub struct Character {
    pub id: Option<CharacterId>,
    pub alias: String,
}

} // verus!
