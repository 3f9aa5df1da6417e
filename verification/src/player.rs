//! The two sides of the game.

use vstd::prelude::*;

verus! {

/// One of the two players. `Red` moves first.
#[derive(Debug, Clone, Copy, PartialEq, Eq, Structural)]
pub enum Player {
    Red,
    Yellow,
}

impl Player {
    /// The other player, as a specification.
    pub open spec fn spec_opposite(self) -> Player {
        match self {
            Player::Red => Player::Yellow,
            Player::Yellow => Player::Red,
        }
    }

    /// The name under which a player is shown.
    pub open spec fn spec_name(self) -> Seq<char> {
        match self {
            Player::Red => "Red"@,
            Player::Yellow => "Yellow"@,
        }
    }

    /// Returns the other player.
    pub fn opposite(self) -> (other: Player)
        ensures
            other == self.spec_opposite(),
    {
        match self {
            Player::Red => Player::Yellow,
            Player::Yellow => Player::Red,
        }
    }

    /// Returns the player's name, `"Red"` or `"Yellow"`.
    pub fn to_string(self) -> (name: &'static str)
        ensures
            name@ == self.spec_name(),
    {
        match self {
            Player::Red => "Red",
            Player::Yellow => "Yellow",
        }
    }
}

/// Taking the opposite twice gives the player back, and the opposite is
/// never the player itself.
pub proof fn lemma_opposite_involutive(p: Player)
    ensures
        p.spec_opposite().spec_opposite() == p,
        p.spec_opposite() != p,
{
}

} // verus!
