//! The card budget of a round: a round that was set up with a full deck
//! never asks the deck for a card that it does not have.

use crate::games::ClientMessage;
use crate::deal::{lemma_hole_deal_keeps_chips, lemma_stud_deal_keeps_chips};
use crate::lobby::{GameState, GameType, LobbyView};
use crate::player::PlayerView;
use vstd::prelude::*;

verus! {

/// Number of cards that a seat still gets in the dealing phase of Five Card
/// Draw: what it lacks of five.
pub open spec fn cards_lacking(p: PlayerView) -> int {
    if p.hand.len() < 5 {
        5 - p.hand.len()
    } else {
        0
    }
}

/// Number of cards that the seats together lack of five each.
pub open spec fn cards_owed(players: Seq<PlayerView>) -> int
    decreases players.len(),
{
    if players.len() == 0 {
        0
    } else {
        cards_owed(players.drop_last()) + cards_lacking(players.last())
    }
}

/// Number of cards that `n` seats still get in Seven Card Stud from the
/// dealing round `round` on: three in the first round, one in each of the
/// rounds two to five.
pub open spec fn stud_cards_left(round: int, n: int) -> int {
    if round <= 1 {
        7 * n
    } else if round == 2 {
        4 * n
    } else if round == 3 {
        3 * n
    } else if round == 4 {
        2 * n
    } else if round == 5 {
        n
    } else {
        0
    }
}

/// Number of community cards that are still dealt in Texas Hold'em from the
/// dealing round `round` on: three in the second round, one in each of the
/// rounds three and four.
pub open spec fn community_cards_left(round: int) -> int {
    if round <= 2 {
        5
    } else if round == 3 {
        2
    } else if round == 4 {
        1
    } else {
        0
    }
}

impl LobbyView {
    /// The deck holds what the rest of the round can ask of it, and the
    /// counters of the dealing and betting rounds are in step.
    pub open spec fn within_card_budget(self) -> bool {
        let n = self.current_player_count;
        let next = self.deck.next;
        let dc = self.deal_card_counter;
        let br = self.betting_round_counter;
        match self.game_type {
            GameType::FiveCardDraw => match self.game_state {
                GameState::StartOfRound => next + cards_owed(self.players) + 5 * n <= 52,
                GameState::Ante => next + cards_owed(self.players) + 5 * n <= 52,
                GameState::DealCards => next + cards_owed(self.players) + 5 * n <= 52,
                GameState::FirstBettingRound => next + cards_owed(self.players) + 5 * n <= 52,
                GameState::Draw => next + 5 * self.turns_remaining <= 52,
                _ => true,
            },
            GameType::SevenCardStud => match self.game_state {
                GameState::StartOfRound => next + 7 * n <= 52,
                GameState::DealCards => 1 <= dc <= 5 && br == dc && next + stud_cards_left(dc, n)
                    <= 52,
                GameState::BringIn => dc == 2 && br == 1 && next + 4 * n <= 52,
                GameState::BettingRound => 1 <= br <= 5 && dc == (if br < 5 {
                    br + 1
                } else {
                    5
                }) && next + stud_cards_left(br + 1, n) <= 52,
                _ => true,
            },
            GameType::TexasHoldEm => match self.game_state {
                GameState::StartOfRound => next + 2 * n + 5 <= 52,
                GameState::SmallAndBigBlind => dc == 1 && br == 1 && next + 2 * n + 5 <= 52,
                GameState::DealCards => 1 <= dc <= 4 && br == dc && next + (if dc == 1 {
                    2 * n
                } else {
                    0
                }) + community_cards_left(dc) <= 52,
                GameState::BettingRound => 1 <= br <= 4 && dc == (if br < 4 {
                    br + 1
                } else {
                    4
                }) && next + community_cards_left(br + 1) <= 52,
                _ => true,
            },
            GameType::NotSet => true,
        }
    }
}

/// The seats lack at most five cards each.
pub proof fn lemma_cards_owed_bounds(players: Seq<PlayerView>)
    ensures
        0 <= cards_owed(players) <= 5 * players.len(),
    decreases players.len(),
{
    if players.len() > 0 {
        lemma_cards_owed_bounds(players.drop_last());
    }
}

/// Replacing one seat changes what the seats lack by what that seat lacks
/// less or more.
pub proof fn lemma_cards_owed_update(players: Seq<PlayerView>, i: int, p: PlayerView)
    requires
        0 <= i < players.len(),
    ensures
        cards_owed(players.update(i, p)) == cards_owed(players) - cards_lacking(players[i])
            + cards_lacking(p),
    decreases players.len(),
{
    let updated = players.update(i, p);
    if i == players.len() - 1 {
        assert(updated.drop_last() =~= players.drop_last());
    } else {
        assert(updated.drop_last() =~= players.drop_last().update(i, p));
        lemma_cards_owed_update(players.drop_last(), i, p);
    }
}

/// Seats with hands of the same sizes lack the same number of cards.
pub proof fn lemma_cards_owed_same_hands(a: Seq<PlayerView>, b: Seq<PlayerView>)
    requires
        a.len() == b.len(),
        forall|i: int| 0 <= i < a.len() ==> (#[trigger] a[i]).hand.len() == b[i].hand.len(),
    ensures
        cards_owed(a) == cards_owed(b),
    decreases a.len(),
{
    if a.len() > 0 {
        assert forall|i: int| 0 <= i < a.drop_last().len() implies (#[trigger] a.drop_last()[i]).hand.len()
            == b.drop_last()[i].hand.len() by {
            assert(a.drop_last()[i] == a[i]);
            assert(b.drop_last()[i] == b[i]);
        }
        lemma_cards_owed_same_hands(a.drop_last(), b.drop_last());
        assert(a.last() == a[a.len() - 1]);
        assert(b.last() == b[a.len() - 1]);
    }
}

/// A round that starts with the cursor of the deck at the top is within the
/// card budget of its variant.
pub proof fn lemma_budget_at_start(l: LobbyView)
    requires
        l.wf(),
        l.game_state == GameState::StartOfRound,
        l.deck.next == 0,
    ensures
        l.within_card_budget(),
{
    lemma_cards_owed_bounds(l.players);
}

/// A step of Five Card Draw keeps the round within its card budget.
pub proof fn lemma_five_card_step_keeps_budget(
    l: LobbyView,
    name: Seq<char>,
    input: Option<ClientMessage>,
)
    requires
        l.five_card_ready(),
        l.in_round(),
    ensures
        l.five_card_step(name, input).within_card_budget(),
{
    let e = l.five_card_step(name, input);
    let i = l.current_player_index;
    lemma_cards_owed_bounds(l.players);
    if name == l.current_player_turn {
        match l.game_state {
            GameState::Ante => {
                lemma_cards_owed_update(l.players, i, e.players[i]);
                assert(e.players =~= l.players.update(i, e.players[i]));
            },
            GameState::DealCards => {
                lemma_cards_owed_update(l.players, i, e.players[i]);
                assert(e.players =~= l.players.update(i, e.players[i]));
            },
            GameState::FirstBettingRound => {
                if l.bet_outcome(input) == crate::rounds::StepKind::Advanced {
                    let a = l.after_move(input);
                    lemma_cards_owed_update(l.players, i, a.players[i]);
                    assert(a.players =~= l.players.update(i, a.players[i]));
                    lemma_cards_owed_same_hands(a.players, e.players);
                }
            },
            GameState::Draw => {},
            _ => {},
        }
    }
}

/// A step of Seven Card Stud keeps the round within its card budget.
pub proof fn lemma_stud_step_keeps_budget(l: LobbyView, name: Seq<char>, input: Option<ClientMessage>)
    requires
        l.stud_ready(),
        l.in_round(),
    ensures
        l.stud_step(name, input).within_card_budget(),
{
    if name == l.current_player_turn {
        match l.game_state {
            GameState::DealCards => {
                lemma_stud_deal_keeps_chips(
                    l.players,
                    l.deck,
                    l.deal_card_counter,
                    l.players.len() as int,
                );
            },
            _ => {},
        }
    }
}

/// A step of Texas Hold'em keeps the round within its card budget.
pub proof fn lemma_texas_step_keeps_budget(l: LobbyView, name: Seq<char>, input: Option<ClientMessage>)
    requires
        l.texas_ready(),
        l.in_round(),
    ensures
        l.texas_step(name, input).within_card_budget(),
{
    if name == l.current_player_turn {
        match l.game_state {
            GameState::DealCards => {
                lemma_hole_deal_keeps_chips(l.players, l.deck, l.players.len() as int);
            },
            _ => {},
        }
    }
}

/// Two tables have the same players in the same seats.
pub open spec fn same_seating(a: Seq<PlayerView>, b: Seq<PlayerView>) -> bool {
    a.len() == b.len() && forall|i: int| 0 <= i < a.len() ==> (#[trigger] a[i]).name == b[i].name
}

/// A step of Five Card Draw moves no player to another seat.
pub proof fn lemma_five_card_step_keeps_seating(
    l: LobbyView,
    name: Seq<char>,
    input: Option<ClientMessage>,
)
    requires
        l.seated(),
    ensures
        same_seating(l.players, l.five_card_step(name, input).players),
{
    let e = l.five_card_step(name, input);
    if name == l.current_player_turn && l.game_state == GameState::FirstBettingRound {
        let a = l.after_move(input);
        assert(same_seating(l.players, a.players));
    }
    if name == l.current_player_turn && l.game_state == GameState::SecondBettingRound {
        let a = l.after_move(input);
        assert(same_seating(l.players, a.players));
    }
}

/// A step of Seven Card Stud moves no player to another seat.
pub proof fn lemma_stud_step_keeps_seating(l: LobbyView, name: Seq<char>, input: Option<ClientMessage>)
    requires
        l.seated(),
    ensures
        same_seating(l.players, l.stud_step(name, input).players),
{
    if name == l.current_player_turn {
        match l.game_state {
            GameState::DealCards => {
                lemma_stud_deal_keeps_chips(
                    l.players,
                    l.deck,
                    l.deal_card_counter,
                    l.players.len() as int,
                );
            },
            GameState::BettingRound => {
                let a = l.after_move(input);
                assert(same_seating(l.players, a.players));
            },
            GameState::BringIn => {
                crate::deal::lemma_bring_in_seat_exists(l.players);
            },
            GameState::Showdown => {
                let c = l.without_bets();
                assert(same_seating(l.players, c.players));
                assert(same_seating(c.players, c.faces_up().players));
                assert(same_seating(c.faces_up().players, c.faces_up().with_best_hands().players));
                assert(same_seating(c.players, c.after_showdown().players));
                assert(same_seating(
                    c.faces_up().with_best_hands().players,
                    c.faces_up().with_best_hands().after_showdown().players,
                ));
            },
            _ => {},
        }
    }
}

/// A step of Texas Hold'em moves no player to another seat.
pub proof fn lemma_texas_step_keeps_seating(l: LobbyView, name: Seq<char>, input: Option<ClientMessage>)
    requires
        l.seated(),
    ensures
        same_seating(l.players, l.texas_step(name, input).players),
{
    if name == l.current_player_turn {
        match l.game_state {
            GameState::DealCards => {
                lemma_hole_deal_keeps_chips(l.players, l.deck, l.players.len() as int);
            },
            GameState::BettingRound => {
                let a = l.after_move(input);
                assert(same_seating(l.players, a.players));
            },
            _ => {},
        }
    }
}

} // verus!
