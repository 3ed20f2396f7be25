//! Each step of a round leaves the lobby ready for the next one.

use crate::deal::{
    lemma_bring_in_seat_exists, lemma_hole_deal_keeps_chips, lemma_stud_deal_keeps_chips,
    seven_cards,
};
use crate::games::ClientMessage;
use crate::lobby::{GameState, LobbyView};
use crate::player::{PlayerState, PlayerView};
use crate::rounds::StepKind;
use crate::showdown::{live_count, scorable};
use vstd::prelude::*;

verus! {

impl LobbyView {
    /// Every seat that has not folded has a hand that can be scored.
    pub open spec fn live_hands_scorable(self) -> bool {
        forall|i: int|
            0 <= i < self.players.len() && (#[trigger] self.players[i]).state
                != PlayerState::Folded ==> scorable(self.game_type, self.players[i])
    }
}

/// The seats of `b` have won as many games as those of `a`.
pub open spec fn same_wins(a: Seq<PlayerView>, b: Seq<PlayerView>) -> bool {
    a.len() == b.len() && forall|i: int|
        0 <= i < a.len() ==> (#[trigger] b[i]).games_won == a[i].games_won
}

/// The seats of `b` that have not folded had not folded in `a` and hold the
/// hands they held there.
pub open spec fn same_live_hands(a: Seq<PlayerView>, b: Seq<PlayerView>) -> bool {
    a.len() == b.len() && forall|i: int|
        0 <= i < a.len() && (#[trigger] b[i]).state != PlayerState::Folded ==> a[i].state
            != PlayerState::Folded && b[i].hand == a[i].hand
}

/// The move of the seat on turn in a betting phase changes no hand, lets no
/// seat that has folded back in, and changes no count of games won.
proof fn lemma_move_keeps_hands(l: LobbyView, input: Option<ClientMessage>, next: GameState, bump: int)
    requires
        l.seated(),
    ensures
        same_wins(l.players, l.after_bet_turn(input, next, bump).players),
        same_live_hands(l.players, l.after_bet_turn(input, next, bump).players),
        l.after_bet_turn(input, next, bump).community_cards == l.community_cards,
        l.after_bet_turn(input, next, bump).game_type == l.game_type,
{
    let a = l.after_move(input);
    assert(same_wins(l.players, a.players));
    assert(same_live_hands(l.players, a.players));
    let e = l.after_bet_turn(input, next, bump);
    if l.bet_outcome(input) == StepKind::Advanced {
        assert(same_wins(a.players, e.players));
        assert(same_live_hands(a.players, e.players));
    }
}

/// A step of Five Card Draw leaves the lobby with what the next phase asks
/// of the seats, provided that, where the step leads to a showdown of two or
/// more seats, every seat that has not folded holds a hand that can be
/// scored.
pub proof fn lemma_five_card_step_leaves_ready(
    l: LobbyView,
    name: Seq<char>,
    input: Option<ClientMessage>,
)
    requires
        l.five_card_ready(),
        l.in_round(),
        l.five_card_step(name, input).game_state == GameState::Showdown && live_count(
            l.five_card_step(name, input).players,
        ) >= 2 ==> l.live_hands_scorable(),
    ensures
        l.five_card_step(name, input).in_round() ==> l.five_card_step(name, input).five_card_needs(),
{
    let e = l.five_card_step(name, input);
    let i = l.current_player_index;
    if name == l.current_player_turn {
        match l.game_state {
            GameState::StartOfRound => {},
            GameState::Ante => {
                assert(e.players =~= l.players.update(i, e.players[i]));
                assert(same_wins(l.players, e.players));
                assert(same_live_hands(l.players, e.players));
                lemma_scorable_carried(l, e);
                if e.game_state == GameState::Ante {
                    assert forall|j: int| 0 <= j < e.players.len() implies (
                    #[trigger] e.players[j]).games_played + e.turns_remaining <= i32::MAX by {
                        if j != i {
                            assert(e.players[j] == l.players[j]);
                        }
                    }
                }
            },
            GameState::DealCards => {
                assert(e.players =~= l.players.update(i, e.players[i]));
                assert(same_wins(l.players, e.players));
                if e.game_state == GameState::Showdown {
                    assert(e.players == l.players);
                    lemma_scorable_carried(l, e);
                }
            },
            GameState::FirstBettingRound => {
                lemma_move_keeps_hands(l, input, GameState::Draw, 0);
                lemma_scorable_carried(l, e);
            },
            GameState::SecondBettingRound => {
                lemma_move_keeps_hands(l, input, GameState::Showdown, 0);
                lemma_scorable_carried(l, e);
            },
            GameState::Draw => {
                assert(same_wins(l.players, e.players));
            },
            _ => {},
        }
    }
}

/// Where the seats that have not folded are among those that had not and
/// hold the same hands, hands that could be scored can be scored.
proof fn lemma_scorable_carried(l: LobbyView, e: LobbyView)
    requires
        same_live_hands(l.players, e.players),
        e.game_type == l.game_type,
        e.community_cards == l.community_cards,
    ensures
        l.live_hands_scorable() ==> e.showdown_ready(),
        l.seven_card_hands() ==> e.seven_card_hands(),
        same_wins(l.players, e.players) && l.wins_fit() ==> e.wins_fit(),
{
    if l.live_hands_scorable() {
        assert forall|j: int|
            0 <= j < e.players.len() && (#[trigger] e.players[j]).state
                != PlayerState::Folded implies scorable(e.game_type, e.players[j]) by {
            assert(l.players[j].state != PlayerState::Folded);
        }
    }
    if l.seven_card_hands() {
        assert forall|j: int|
            0 <= j < e.players.len() && (#[trigger] e.players[j]).state
                != PlayerState::Folded implies seven_cards(e, e.players[j]).len() == 7 by {
            assert(l.players[j].state != PlayerState::Folded);
            assert(seven_cards(l, l.players[j]).len() == 7);
        }
    }
}

/// A step of Seven Card Stud leaves the lobby with what the next phase asks
/// of the seats, provided that, where the step leads to a showdown of two or
/// more seats, every seat that has not folded holds seven cards.
pub proof fn lemma_stud_step_leaves_ready(l: LobbyView, name: Seq<char>, input: Option<ClientMessage>)
    requires
        l.stud_ready(),
        l.in_round(),
        l.stud_step(name, input).game_state == GameState::Showdown && live_count(
            l.stud_step(name, input).players,
        ) >= 2 ==> l.seven_card_hands(),
    ensures
        l.stud_step(name, input).in_round() ==> l.stud_step(name, input).stud_needs(),
{
    let e = l.stud_step(name, input);
    if name == l.current_player_turn {
        match l.game_state {
            GameState::DealCards => {
                lemma_stud_deal_keeps_chips(
                    l.players,
                    l.deck,
                    l.deal_card_counter,
                    l.players.len() as int,
                );
                assert(same_wins(l.players, e.players));
            },
            GameState::BringIn => {
                lemma_bring_in_seat_exists(l.players);
                assert(same_wins(l.players, e.players));
            },
            GameState::BettingRound => {
                let next = if l.betting_round_counter == 5 {
                    GameState::Showdown
                } else {
                    GameState::DealCards
                };
                lemma_move_keeps_hands(l, input, next, 1);
                lemma_scorable_carried(l, e);
            },
            _ => {},
        }
    }
}

/// A step of Texas Hold'em leaves the lobby with what the next phase asks
/// of the seats, provided that, where the step leads to a showdown of two or
/// more seats, every seat that has not folded holds two cards and five lie
/// on the table.
pub proof fn lemma_texas_step_leaves_ready(l: LobbyView, name: Seq<char>, input: Option<ClientMessage>)
    requires
        l.texas_ready(),
        l.in_round(),
        l.texas_step(name, input).game_state == GameState::Showdown && live_count(
            l.texas_step(name, input).players,
        ) >= 2 ==> l.seven_card_hands(),
    ensures
        l.texas_step(name, input).in_round() ==> l.texas_step(name, input).texas_needs(),
{
    let e = l.texas_step(name, input);
    if name == l.current_player_turn {
        match l.game_state {
            GameState::SmallAndBigBlind => {
                assert(same_wins(l.players, e.players));
                assert forall|j: int| 0 <= j < e.players.len() implies (
                #[trigger] e.players[j]).games_played + 1 <= i32::MAX by {
                    assert(e.players[j].games_played == l.players[j].games_played);
                }
            },
            GameState::DealCards => {
                lemma_hole_deal_keeps_chips(l.players, l.deck, l.players.len() as int);
                assert(same_wins(l.players, e.players));
            },
            GameState::BettingRound => {
                let next = if l.betting_round_counter == 4 {
                    GameState::Showdown
                } else {
                    GameState::DealCards
                };
                lemma_move_keeps_hands(l, input, next, 1);
                lemma_scorable_carried(l, e);
            },
            _ => {},
        }
    }
}

} // verus!
