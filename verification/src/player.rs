//! Players: identity, board position, powerup inventory.

use crate::cell::PowerupType;
use vstd::prelude::*;

verus! {

/// A player.  `name` is the ASCII byte of the identity letter ('A'..'Z').
/// `position` is a 1-based linear index into the board.  Each powerup kind
/// is held or not held, tracked independently.
#[derive(Clone, Copy, PartialEq, Eq, Structural, Debug)]
pub struct Player {
    pub name: u8,
    pub position: usize,
    pub antivenom: bool,
    pub doubleroll: bool,
    pub escalator: bool,
}

/// Whether `p` holds the powerup `k`.  `Nothing` is never held.
pub open spec fn holds(p: Player, k: PowerupType) -> bool {
    match k {
        PowerupType::Antivenom => p.antivenom,
        PowerupType::Doubleroll => p.doubleroll,
        PowerupType::Escalator => p.escalator,
        PowerupType::Nothing => false,
    }
}

/// `p` with the powerup `k` added to its inventory (a no-op for `Nothing`).
pub open spec fn granted(p: Player, k: PowerupType) -> Player {
    match k {
        PowerupType::Antivenom => Player { antivenom: true, ..p },
        PowerupType::Doubleroll => Player { doubleroll: true, ..p },
        PowerupType::Escalator => Player { escalator: true, ..p },
        PowerupType::Nothing => p,
    }
}

/// `p` with the powerup `k` removed from its inventory.
pub open spec fn consumed(p: Player, k: PowerupType) -> Player {
    match k {
        PowerupType::Antivenom => Player { antivenom: false, ..p },
        PowerupType::Doubleroll => Player { doubleroll: false, ..p },
        PowerupType::Escalator => Player { escalator: false, ..p },
        PowerupType::Nothing => p,
    }
}

impl Player {
    /// A fresh player with the given identity letter, standing at cell 1
    /// and holding no powerups.
    pub fn new(name: u8) -> (p: Player)
        ensures
            p == (Player {
                name,
                position: 1,
                antivenom: false,
                doubleroll: false,
                escalator: false,
            }),
    {
        Player { name, position: 1, antivenom: false, doubleroll: false, escalator: false }
    }

    /// The identity letter.
    pub fn get_name(&self) -> (n: u8)
        ensures
            n == self.name,
    {
        self.name
    }

    /// The 1-based board position.
    pub fn get_position(&self) -> (pos: usize)
        ensures
            pos == self.position,
    {
        self.position
    }

    /// Move the player's recorded position.
    pub fn set_position(&mut self, i: usize)
        ensures
            *final(self) == (Player { position: i, ..*old(self) }),
    {
        self.position = i;
    }

    /// Grant a powerup.  Granting one already held is a no-op: the
    /// inventory is a flag per kind, not a counter.
    pub fn add_powerup(&mut self, powerup: PowerupType)
        ensures
            *final(self) == granted(*old(self), powerup),
    {
        match powerup {
            PowerupType::Antivenom => {
                self.antivenom = true;
            },
            PowerupType::Doubleroll => {
                self.doubleroll = true;
            },
            PowerupType::Escalator => {
                self.escalator = true;
            },
            PowerupType::Nothing => {},
        }
    }

    /// Spend a powerup.  Returns whether it was held; afterwards it is not.
    pub fn consume_powerup(&mut self, powerup: PowerupType) -> (had: bool)
        ensures
            had == holds(*old(self), powerup),
            *final(self) == consumed(*old(self), powerup),
    {
        match powerup {
            PowerupType::Antivenom => {
                let had = self.antivenom;
                self.antivenom = false;
                had
            },
            PowerupType::Doubleroll => {
                let had = self.doubleroll;
                self.doubleroll = false;
                had
            },
            PowerupType::Escalator => {
                let had = self.escalator;
                self.escalator = false;
                had
            },
            PowerupType::Nothing => false,
        }
    }
}

} // verus!
