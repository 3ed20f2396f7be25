//! The record that the account store keeps for a player.

use crate::player::PlayerView;
use vstd::prelude::*;

verus! {

/// A player's statistics as they are read from, or written to, the account
/// store.
#[derive(Debug)]
pub struct PlayerStats {
    pub id: String,
    pub name: String,
    pub games_played: i32,
    pub games_won: i32,
    pub wallet: i32,
}

/// Mathematical model of a statistics record.
#[verifier::ext_equal]
pub struct PlayerStatsView {
    pub id: Seq<char>,
    pub name: Seq<char>,
    pub games_played: int,
    pub games_won: int,
    pub wallet: int,
}

impl View for PlayerStats {
    type V = PlayerStatsView;

    open spec fn view(&self) -> PlayerStatsView {
        PlayerStatsView {
            id: self.id@,
            name: self.name@,
            games_played: self.games_played as int,
            games_won: self.games_won as int,
            wallet: self.wallet as int,
        }
    }
}

/// What is written to the store for a player at the end of a round: the
/// games played and won since the last write, and the wallet as it stands.
pub open spec fn stats_of(p: PlayerView) -> PlayerStatsView {
    PlayerStatsView {
        id: p.id,
        name: p.name,
        games_played: p.games_played,
        games_won: p.games_won,
        wallet: p.wallet,
    }
}

} // verus!
