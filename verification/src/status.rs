//! Player presence and its encoding as a small number.

use vstd::prelude::*;

verus! {

/// The kind of game a player is in.
#[derive(Debug, Clone, Copy, PartialEq, Eq, Structural)]
pub enum GameKind {
    Normal,
    Ranked,
}

/// The presence of a player.
#[derive(Debug, Clone, Copy, PartialEq, Eq, Structural)]
pub enum PlayerStatus {
    Online,
    Offline,
    Away,
    Busy,
    InGame {
        game: GameKind,
        /// When the game started. It is not part of the encoding.
        time: u64,
    },
}

impl PlayerStatus {
    /// The number that stands for this status on the wire.
    pub open spec fn code(self) -> u64 {
        match self {
            PlayerStatus::Online => 0,
            PlayerStatus::Offline => 1,
            PlayerStatus::Away => 2,
            PlayerStatus::Busy => 3,
            PlayerStatus::InGame { game: GameKind::Normal, .. } => 4,
            PlayerStatus::InGame { game: GameKind::Ranked, .. } => 5,
        }
    }

    /// The status that `code` stands for. A game comes back with start time zero.
    pub open spec fn of_code(code: u64) -> Option<PlayerStatus> {
        if code == 0 {
            Some(PlayerStatus::Online)
        } else if code == 1 {
            Some(PlayerStatus::Offline)
        } else if code == 2 {
            Some(PlayerStatus::Away)
        } else if code == 3 {
            Some(PlayerStatus::Busy)
        } else if code == 4 {
            Some(PlayerStatus::InGame { game: GameKind::Normal, time: 0 })
        } else if code == 5 {
            Some(PlayerStatus::InGame { game: GameKind::Ranked, time: 0 })
        } else {
            None
        }
    }

    /// This status as it comes back from the wire: a game loses its start time.
    pub open spec fn timeless(self) -> PlayerStatus {
        match self {
            PlayerStatus::InGame { game, .. } => PlayerStatus::InGame { game, time: 0 },
            _ => self,
        }
    }

    /// The status that `value` stands for, if it stands for one.
    pub fn from_uint(value: u64) -> (status: Option<PlayerStatus>)
        ensures
            status == Self::of_code(value),
    {
        match value {
            0 => Some(PlayerStatus::Online),
            1 => Some(PlayerStatus::Offline),
            2 => Some(PlayerStatus::Away),
            3 => Some(PlayerStatus::Busy),
            4 => Some(PlayerStatus::InGame { game: GameKind::Normal, time: 0 }),
            5 => Some(PlayerStatus::InGame { game: GameKind::Ranked, time: 0 }),
            _ => None,
        }
    }

    /// The number that stands for this status.
    pub fn to_uint(&self) -> (code: u64)
        ensures
            code == self.code(),
            code <= 5,
    {
        match self {
            PlayerStatus::Online => 0,
            PlayerStatus::Offline => 1,
            PlayerStatus::Away => 2,
            PlayerStatus::Busy => 3,
            PlayerStatus::InGame { game, time: _ } => match game {
                GameKind::Normal => 4,
                GameKind::Ranked => 5,
            },
        }
    }

    /// A status survives its encoding, but for the start time of a game; and the
    /// six codes are the only ones.
    pub proof fn lemma_code_round_trip(self)
        ensures
            Self::of_code(self.code()) == Some(self.timeless()),
            self.code() <= 5,
    {
    }
}

} // verus!
