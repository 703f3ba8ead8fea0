//! A player at the table and the level the player has reached.

use vstd::prelude::*;

use crate::types::{rank_successor, Number, PlayerID, Rank};

verus! {

#[derive(Debug)]
pub struct Player {
    pub id: PlayerID,
    pub name: String,
    pub level: Rank,
    pub metalevel: usize,
}

impl Clone for Player {
    fn clone(&self) -> (r: Self)
        ensures
            r == *self,
    {
        Player { id: self.id, name: self.name.clone(), level: self.level, metalevel: self.metalevel }
    }
}

/// The level a player reaches after one step up from `level`, when play
/// stops at `max_rank`: past `max_rank` (or past no-trump) the player starts
/// again from two.
pub open spec fn advanced_level(level: Rank, max_rank: Rank) -> Rank {
    match rank_successor(level) {
        Some(next) if level != max_rank => next,
        _ => Rank::Number(Number::Two),
    }
}

/// Whether one step up from `level` wraps around to two.
pub open spec fn advance_wraps(level: Rank, max_rank: Rank) -> bool {
    rank_successor(level) is None || level == max_rank
}

impl Player {
    pub fn new(id: PlayerID, name: String) -> (r: Player)
        ensures
            r.id == id,
            r.name == name,
            r.level == Rank::Number(Number::Two),
            r.metalevel == 1,
    {
        Player { id, name, level: Rank::Number(Number::Two), metalevel: 1 }
    }

    pub fn rank(&self) -> (r: Rank)
        ensures
            r == self.level,
    {
        self.level
    }

    pub fn set_rank(&mut self, level: Rank)
        ensures
            *final(self) == (Player { level, ..*old(self) }),
    {
        self.level = level;
    }

    pub fn set_meta_rank(&mut self, metalevel: usize)
        ensures
            *final(self) == (Player { metalevel, ..*old(self) }),
    {
        self.metalevel = metalevel;
    }

    /// Moves the player up one level. A player at `max_rank` (or at the very
    /// top) starts over from two, one metalevel higher.
    pub fn advance(&mut self, max_rank: Rank)
        requires
            old(self).metalevel < usize::MAX,
        ensures
            final(self).id == old(self).id,
            final(self).name == old(self).name,
            final(self).level == advanced_level(old(self).level, max_rank),
            final(self).metalevel == old(self).metalevel + (if advance_wraps(old(self).level, max_rank) { 1int } else { 0int }),
    {
        match self.level.successor() {
            Some(next_level) if self.level != max_rank => {
                self.level = next_level;
            },
            _ => {
                self.metalevel += 1;
                self.level = Rank::Number(Number::Two);
            },
        }
    }
}

} // verus!
