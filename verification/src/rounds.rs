//! The round coordinators: one step function per variant, which takes the
//! lobby and what the seat on turn sent, and moves the round on by one seat's
//! work or one phase.

use crate::budget::{cards_owed, community_cards_left, stud_cards_left};
use crate::database::{stats_of, PlayerStats};
use crate::deal::{
    blinds, bring_in, deal_cards_7, deal_cards_texas, get_rid_of_x, lemma_only_hands_differ,
    update_players_hand,
};
use crate::games::{betting_round, ClientMessage, ANTE};
use crate::lobby::{
    contenders, is_bet_phase, lemma_same_chips, lemma_totals_bound, lemma_totals_update,
    lemma_without_bets, same_chips, GameState, GameType, Lobby, LobbyView,
};
use crate::owing::{
    lemma_bets_stay_within_turns, lemma_bets_within_turns_after_reset,
};
use crate::player::{seats, PlayerState, PlayerView};
use crate::showdown::{
    lemma_live_same, lemma_showdown_ready_without_bets, live_count, live_seats, scorable, showdown,
};
use vstd::prelude::*;

verus! {

/// What a step of a round did.
#[derive(Debug)]
pub enum StepResult {
    /// The caller is not the seat on turn. Nothing changed.
    NotOnTurn,
    /// No round is running. Nothing changed.
    Idle,
    /// The seat on turn has to send its move first. Nothing changed.
    AwaitingInput,
    /// The move is against the rules. Nothing changed and the seat stays on
    /// turn.
    Rejected,
    /// The round moved on.
    Advanced,
    /// The round is over; the records are to be written to the account
    /// store.
    RoundOver(Vec<PlayerStats>),
}

/// The kind of a step result.
#[derive(Clone, Copy, Debug, PartialEq, Eq, Structural)]
pub enum StepKind {
    NotOnTurn,
    Idle,
    AwaitingInput,
    Rejected,
    Advanced,
    RoundOver,
}

impl StepResult {
    /// The kind of the result.
    pub open spec fn spec_kind(&self) -> StepKind {
        match *self {
            StepResult::NotOnTurn => StepKind::NotOnTurn,
            StepResult::Idle => StepKind::Idle,
            StepResult::AwaitingInput => StepKind::AwaitingInput,
            StepResult::Rejected => StepKind::Rejected,
            StepResult::Advanced => StepKind::Advanced,
            StepResult::RoundOver(_) => StepKind::RoundOver,
        }
    }

    /// The kind of the result.
    #[verifier::when_used_as_spec(spec_kind)]
    pub fn kind(&self) -> (kind: StepKind)
        ensures
            kind == self.spec_kind(),
    {
        match self {
            StepResult::NotOnTurn => StepKind::NotOnTurn,
            StepResult::Idle => StepKind::Idle,
            StepResult::AwaitingInput => StepKind::AwaitingInput,
            StepResult::Rejected => StepKind::Rejected,
            StepResult::Advanced => StepKind::Advanced,
            StepResult::RoundOver(_) => StepKind::RoundOver,
        }
    }
}

/// What the seat on turn sent, if anything.
pub open spec fn given(input: Option<&ClientMessage>) -> Option<ClientMessage> {
    match input {
        Some(m) => Some(*m),
        None => None,
    }
}

/// The hand after the cards at the first `upto` of the listed positions
/// were replaced, one after the other, by the next cards of the deck.
pub open spec fn drawn_hand(hand: Seq<i32>, deck: crate::deck::DeckView, indices: Seq<usize>,
    upto: int) -> Seq<i32>
    decreases upto,
{
    if upto <= 0 {
        hand
    } else {
        drawn_hand(hand, deck, indices, upto - 1).update(
            indices[upto - 1] as int,
            deck.upcoming(upto - 1),
        )
    }
}

impl LobbyView {
    /// Whether turns are counted seat by seat in the phase.
    pub open spec fn counts_turns(self) -> bool {
        match self.game_state {
            GameState::Ante => true,
            GameState::FirstBettingRound => true,
            GameState::SecondBettingRound => true,
            GameState::BettingRound => true,
            GameState::Draw => true,
            GameState::DealCards => true,
            GameState::SmallAndBigBlind => true,
            GameState::BringIn => true,
            _ => false,
        }
    }

    /// Whether a round is running.
    pub open spec fn in_round(self) -> bool {
        match self.game_state {
            GameState::Joinable => false,
            GameState::GameLobbyFull => false,
            GameState::EndOfRound => false,
            _ => true,
        }
    }

    /// What holds of a lobby between the steps of a round: the cursor points
    /// at a seat, the chip invariant holds, no seat has bet more than the
    /// highest bet, the deck can be dealt from, where turns are counted at
    /// least one and at most one per seat is owed, and in a betting phase
    /// every seat that owes chips gets its turn while turns are owed.
    pub open spec fn round_ok(self) -> bool {
        &&& self.seated()
        &&& self.chips_ok()
        &&& self.bets_capped()
        &&& self.deck.dealable()
        &&& self.counts_turns() ==> 1 <= self.turns_remaining <= self.current_player_count
        &&& is_bet_phase(self.game_state) ==> self.bets_within_turns()
    }

    /// Whether the phase waits for a move of the seat on turn.
    pub open spec fn awaits_input(self) -> bool {
        (is_bet_phase(self.game_state) || self.game_state == GameState::Draw)
            && self.on_turn().can_act()
    }

    /// The lobby with one turn less owed.
    pub open spec fn turn_taken(self) -> LobbyView {
        LobbyView { turns_remaining: self.turns_remaining - 1, ..self }
    }

    /// The lobby at the start of the phase `next`: every seat owes a turn
    /// and the cursor starts from the first bettor.
    pub open spec fn enter_phase(self, next: GameState) -> LobbyView {
        (LobbyView {
            game_state: next,
            turns_remaining: self.current_player_count,
            ..self
        }).advance_turn(true)
    }

    /// The lobby after the seat on turn took its turn in a phase that ends
    /// in `next`: the phase goes on with the next seat while turns are owed,
    /// and ends when none is.
    pub open spec fn end_turn(self, next: GameState) -> LobbyView {
        let l = self.turn_taken();
        if l.turns_remaining == 0 {
            l.enter_phase(next)
        } else {
            l.advance_turn(false)
        }
    }

    /// The lobby after the seat on turn paid the ante, or folded for want
    /// of chips.
    pub open spec fn after_ante(self) -> LobbyView {
        let i = self.current_player_index;
        let p = self.on_turn();
        let l = if p.wallet > ANTE {
            LobbyView {
                pot: self.pot + ANTE,
                ..self.set_player(
                    i,
                    PlayerView { wallet: p.wallet - ANTE, games_played: p.games_played + 1, ..p },
                )
            }
        } else {
            self.set_player(i, p.with_state(PlayerState::Folded))
        };
        l.end_turn(
            if contenders(l.players) <= 1 {
                GameState::Showdown
            } else {
                GameState::DealCards
            },
        )
    }

    /// The lobby after the seat on turn took its turn in the dealing phase
    /// of Five Card Draw: a seat with fewer than five cards gets one card
    /// and owes its turn still, a seat with a full hand has taken its turn.
    pub open spec fn after_deal_turn(self) -> LobbyView {
        let i = self.current_player_index;
        let p = self.on_turn();
        if p.state == PlayerState::Folded {
            self.advance_turn(false)
        } else if p.hand.len() < 5 {
            (LobbyView {
                deck: self.deck.advance(1),
                ..self.set_player(i, p.with_hand(p.hand.push(self.deck.upcoming(0))))
            }).advance_turn(false)
        } else {
            self.end_turn(
                if self.hand_decided() {
                    GameState::Showdown
                } else {
                    GameState::FirstBettingRound
                },
            )
        }
    }

    /// The lobby after the seat on turn left the table in the middle of a
    /// hand: the seat has folded.
    pub open spec fn dropped(self) -> LobbyView {
        let p = self.on_turn();
        self.set_player(
            self.current_player_index,
            PlayerView { state: PlayerState::Folded, disconnected: true, ..p },
        )
    }

    /// The lobby after a turn of a betting phase was taken. When at most
    /// one seat contends, the hand goes to the showdown. When no turn is
    /// owed any more, the bets are cleared and the phase `next` starts, and
    /// the count of betting rounds grows by `bump`. Else the next seat is
    /// on turn.
    pub open spec fn end_bet_turn(self, next: GameState, bump: int) -> LobbyView {
        let l = self.turn_taken();
        if l.hand_decided() {
            LobbyView { game_state: GameState::Showdown, ..l.without_bets() }
        } else if l.turns_remaining == 0 {
            (LobbyView {
                betting_round_counter: l.betting_round_counter + bump,
                ..l.without_bets()
            }).enter_phase(next)
        } else {
            l.advance_turn(false)
        }
    }

    /// What a step in a betting phase does with what the seat on turn sent.
    pub open spec fn bet_outcome(self, input: Option<ClientMessage>) -> StepKind {
        if !self.on_turn().can_act() {
            StepKind::Advanced
        } else {
            match input {
                None => StepKind::AwaitingInput,
                Some(m) => if m is Disconnect || self.bet_legal(m) {
                    StepKind::Advanced
                } else {
                    StepKind::Rejected
                },
            }
        }
    }

    /// The lobby after the seat on turn made its move in a betting phase,
    /// before its turn is ended. A seat that has folded or is all-in makes
    /// no move; leaving the table counts as folding; a raise lets every
    /// seat owe a turn again.
    pub open spec fn after_move(self, input: Option<ClientMessage>) -> LobbyView {
        if !self.on_turn().can_act() {
            self
        } else {
            match input {
                None => self,
                Some(m) => if m is Disconnect {
                    self.dropped()
                } else if self.bet_raises(m) {
                    LobbyView { turns_remaining: self.current_player_count, ..self.after_bet(m) }
                } else {
                    self.after_bet(m)
                },
            }
        }
    }

    /// The lobby after a step in a betting phase. A seat that can act stays
    /// on turn until it sends a legal move; then, and for a seat that
    /// cannot act, the turn is ended.
    pub open spec fn after_bet_turn(self, input: Option<ClientMessage>, next: GameState,
        bump: int) -> LobbyView {
        if self.bet_outcome(input) == StepKind::Advanced {
            self.after_move(input).end_bet_turn(next, bump)
        } else {
            self
        }
    }

    /// Whether the seat on turn may exchange the cards at the listed
    /// positions: at most five, each within the hand.
    pub open spec fn draw_legal(self, indices: Seq<usize>) -> bool {
        indices.len() <= 5 && forall|k: int|
            0 <= k < indices.len() ==> #[trigger] indices[k] < self.on_turn().hand.len()
    }

    /// The lobby after the seat on turn exchanged the cards at the listed
    /// positions.
    pub open spec fn after_draw(self, indices: Seq<usize>) -> LobbyView {
        let p = self.on_turn();
        LobbyView {
            deck: self.deck.advance(indices.len() as int),
            ..self.set_player(
                self.current_player_index,
                p.with_hand(drawn_hand(p.hand, self.deck, indices, indices.len() as int)),
            )
        }
    }

    /// What a step in the drawing phase does with what the seat on turn
    /// sent.
    pub open spec fn draw_outcome(self, input: Option<ClientMessage>) -> StepKind {
        if !self.on_turn().can_act() {
            StepKind::Advanced
        } else {
            match input {
                Some(ClientMessage::DrawCards { card_indices }) => if self.draw_legal(card_indices@) {
                    StepKind::Advanced
                } else {
                    StepKind::Rejected
                },
                Some(ClientMessage::Disconnect) => StepKind::Advanced,
                _ => StepKind::AwaitingInput,
            }
        }
    }

    /// The lobby after a step in the drawing phase.
    pub open spec fn after_draw_turn(self, input: Option<ClientMessage>) -> LobbyView {
        if !self.on_turn().can_act() {
            self.end_turn(GameState::SecondBettingRound)
        } else {
            match input {
                Some(ClientMessage::DrawCards { card_indices }) => if self.draw_legal(card_indices@) {
                    self.after_draw(card_indices@).end_turn(GameState::SecondBettingRound)
                } else {
                    self
                },
                Some(ClientMessage::Disconnect) => self.dropped().end_turn(
                    GameState::SecondBettingRound,
                ),
                _ => self,
            }
        }
    }

    /// The lobby after the round was closed: what is to be written to the
    /// store was handed out, and the lobby is ready for the next round.
    pub open spec fn after_update(self) -> LobbyView {
        self.change_all(|p: PlayerView| p.flushed()).closed_round()
    }

    /// What the phase of a round of Five Card Draw asks of the seats: game
    /// counters that can grow for every ante still to be paid and for a win,
    /// and hands that can be scored at the showdown.
    pub open spec fn five_card_needs(self) -> bool {
        match self.game_state {
            GameState::StartOfRound => self.wins_fit() && self.plays_fit(self.current_player_count),
            GameState::Ante => self.wins_fit() && self.plays_fit(self.turns_remaining),
            GameState::Showdown => self.wins_fit() && self.showdown_ready(),
            GameState::UpdateDb => true,
            _ => self.wins_fit(),
        }
    }

    /// What a step of Five Card Draw needs while a round runs: the invariant
    /// of the round, the card budget, and what the phase asks of the seats.
    pub open spec fn five_card_ready(self) -> bool {
        self.in_round() ==> self.round_ok() && self.game_type == GameType::FiveCardDraw
            && self.within_card_budget() && self.five_card_needs()
    }

    /// The lobby after the showdown of a seven-card game: standing bets are
    /// cleared; where two or more seats have not folded, their cards are
    /// turned face up (in Seven Card Stud) and each hand is replaced by the
    /// best score of its seven cards; then the pot is handed out.
    pub open spec fn seven_card_showdown(self, stud: bool) -> LobbyView {
        let l = self.without_bets();
        if live_count(l.players) >= 2 {
            if stud {
                l.faces_up().with_best_hands().after_showdown()
            } else {
                l.with_best_hands().after_showdown()
            }
        } else {
            l.after_showdown()
        }
    }

    /// What the phase of a round of Seven Card Stud asks of the seats: game
    /// counters that can grow for a win, up-cards at the bring-in, and seven
    /// cards per seat at a showdown of two or more seats.
    pub open spec fn stud_needs(self) -> bool {
        match self.game_state {
            GameState::BringIn => self.wins_fit() && forall|i: int|
                0 <= i < self.players.len() && (#[trigger] self.players[i]).state
                    != PlayerState::Folded ==> self.players[i].hand.len() >= 3,
            GameState::Showdown => self.wins_fit() && (live_count(self.players) >= 2
                ==> self.seven_card_hands()),
            GameState::UpdateDb => true,
            _ => self.wins_fit(),
        }
    }

    /// What a step of Seven Card Stud needs while a round runs: the
    /// invariant of the round, the card budget, and what the phase asks of
    /// the seats.
    pub open spec fn stud_ready(self) -> bool {
        self.in_round() ==> self.round_ok() && self.game_type == GameType::SevenCardStud
            && self.within_card_budget() && self.stud_needs()
    }

    /// The lobby after a step of Seven Card Stud by the player `name` who
    /// sent `input`.
    pub open spec fn stud_step(self, name: Seq<char>, input: Option<ClientMessage>) -> LobbyView {
        if name != self.current_player_turn {
            self
        } else {
            match self.game_state {
                GameState::StartOfRound => LobbyView {
                    game_state: GameState::DealCards,
                    turns_remaining: self.current_player_count,
                    deal_card_counter: 1,
                    betting_round_counter: 1,
                    ..self
                },
                GameState::DealCards => {
                    let d = self.after_stud_deal(self.deal_card_counter);
                    if self.deal_card_counter == 1 {
                        LobbyView { deal_card_counter: 2, game_state: GameState::BringIn, ..d }
                    } else {
                        (LobbyView {
                            deal_card_counter: if self.deal_card_counter != 5 {
                                self.deal_card_counter + 1
                            } else {
                                self.deal_card_counter
                            },
                            ..d
                        }).enter_phase(GameState::BettingRound)
                    }
                },
                GameState::BringIn => self.after_bring_in().enter_phase(GameState::BettingRound),
                GameState::BettingRound => self.after_bet_turn(
                    input,
                    if self.betting_round_counter == 5 {
                        GameState::Showdown
                    } else {
                        GameState::DealCards
                    },
                    1,
                ),
                GameState::Showdown => LobbyView {
                    game_state: GameState::UpdateDb,
                    ..self.seven_card_showdown(true)
                },
                GameState::UpdateDb => self.after_update(),
                _ => self,
            }
        }
    }

    /// What a step of Seven Card Stud answers.
    pub open spec fn stud_outcome(self, name: Seq<char>, input: Option<ClientMessage>) -> StepKind {
        if name != self.current_player_turn {
            StepKind::NotOnTurn
        } else {
            match self.game_state {
                GameState::StartOfRound => StepKind::Advanced,
                GameState::DealCards => StepKind::Advanced,
                GameState::BringIn => StepKind::Advanced,
                GameState::BettingRound => self.bet_outcome(input),
                GameState::Showdown => StepKind::Advanced,
                GameState::UpdateDb => StepKind::RoundOver,
                _ => StepKind::Idle,
            }
        }
    }

    /// What a step of Texas Hold'em answers.
    pub open spec fn texas_outcome(self, name: Seq<char>, input: Option<ClientMessage>) -> StepKind {
        if name != self.current_player_turn {
            StepKind::NotOnTurn
        } else {
            match self.game_state {
                GameState::StartOfRound => StepKind::Advanced,
                GameState::SmallAndBigBlind => StepKind::Advanced,
                GameState::DealCards => StepKind::Advanced,
                GameState::BettingRound => self.bet_outcome(input),
                GameState::Showdown => StepKind::Advanced,
                GameState::UpdateDb => StepKind::RoundOver,
                _ => StepKind::Idle,
            }
        }
    }

    /// What the phase of a round of Texas Hold'em asks of the seats: two
    /// seats to post the blinds and no bet standing before them, game
    /// counters that can grow when the hole cards are dealt and for a win,
    /// and seven cards per seat at a showdown of two or more seats.
    pub open spec fn texas_needs(self) -> bool {
        match self.game_state {
            GameState::StartOfRound => self.no_bet_stands() && self.current_player_count >= 2
                && self.wins_fit() && self.plays_fit(1),
            GameState::SmallAndBigBlind => self.no_bet_stands() && self.current_player_count >= 2
                && self.wins_fit() && self.plays_fit(1),
            GameState::DealCards => self.wins_fit() && (self.deal_card_counter == 1
                ==> self.plays_fit(1)),
            GameState::Showdown => self.wins_fit() && (live_count(self.players) >= 2
                ==> self.seven_card_hands()),
            GameState::UpdateDb => true,
            _ => self.wins_fit(),
        }
    }

    /// What a step of Texas Hold'em needs while a round runs: the invariant
    /// of the round, the card budget, and what the phase asks of the seats.
    pub open spec fn texas_ready(self) -> bool {
        self.in_round() ==> self.round_ok() && self.game_type == GameType::TexasHoldEm
            && self.within_card_budget() && self.texas_needs()
    }

    /// The lobby after a step of Texas Hold'em by the player `name` who sent
    /// `input`.
    pub open spec fn texas_step(self, name: Seq<char>, input: Option<ClientMessage>) -> LobbyView {
        if name != self.current_player_turn {
            self
        } else {
            match self.game_state {
                GameState::StartOfRound => LobbyView {
                    game_state: GameState::SmallAndBigBlind,
                    turns_remaining: self.current_player_count,
                    deal_card_counter: 1,
                    betting_round_counter: 1,
                    ..self
                },
                GameState::SmallAndBigBlind => {
                    let b = self.after_blinds();
                    LobbyView {
                        game_state: GameState::DealCards,
                        ..(LobbyView {
                            first_betting_player: (b.first_betting_player + 3)
                                % b.current_player_count,
                            ..b
                        }).advance_turn(true)
                    }
                },
                GameState::DealCards => {
                    let d = self.after_texas_deal(self.deal_card_counter);
                    if self.deal_card_counter == 1 {
                        (LobbyView { deal_card_counter: 2, ..d }).enter_phase(
                            GameState::BettingRound,
                        )
                    } else {
                        (LobbyView {
                            deal_card_counter: if self.deal_card_counter < 4 {
                                self.deal_card_counter + 1
                            } else {
                                self.deal_card_counter
                            },
                            ..d.without_bets()
                        }).enter_phase(GameState::BettingRound)
                    }
                },
                GameState::BettingRound => self.after_bet_turn(
                    input,
                    if self.betting_round_counter == 4 {
                        GameState::Showdown
                    } else {
                        GameState::DealCards
                    },
                    1,
                ),
                GameState::Showdown => LobbyView {
                    game_state: GameState::UpdateDb,
                    ..self.seven_card_showdown(false)
                },
                GameState::UpdateDb => self.after_update(),
                _ => self,
            }
        }
    }

    /// The lobby after a step of Five Card Draw by the player `name` who
    /// sent `input`.
    pub open spec fn five_card_step(self, name: Seq<char>, input: Option<ClientMessage>) -> LobbyView {
        if name != self.current_player_turn {
            self
        } else {
            match self.game_state {
                GameState::StartOfRound => LobbyView {
                    game_state: GameState::Ante,
                    turns_remaining: self.current_player_count,
                    ..self
                },
                GameState::Ante => self.after_ante(),
                GameState::DealCards => self.after_deal_turn(),
                GameState::FirstBettingRound => self.after_bet_turn(input, GameState::Draw, 0),
                GameState::SecondBettingRound => self.after_bet_turn(input, GameState::Showdown, 0),
                GameState::Draw => self.after_draw_turn(input),
                GameState::Showdown => LobbyView {
                    game_state: GameState::UpdateDb,
                    ..self.without_bets().after_showdown()
                },
                GameState::UpdateDb => self.after_update(),
                _ => self,
            }
        }
    }

    /// What a step of Five Card Draw answers.
    pub open spec fn five_card_outcome(self, name: Seq<char>, input: Option<ClientMessage>) -> StepKind {
        if name != self.current_player_turn {
            StepKind::NotOnTurn
        } else {
            match self.game_state {
                GameState::StartOfRound => StepKind::Advanced,
                GameState::Ante => StepKind::Advanced,
                GameState::DealCards => StepKind::Advanced,
                GameState::FirstBettingRound => self.bet_outcome(input),
                GameState::SecondBettingRound => self.bet_outcome(input),
                GameState::Draw => self.draw_outcome(input),
                GameState::Showdown => StepKind::Advanced,
                GameState::UpdateDb => StepKind::RoundOver,
                _ => StepKind::Idle,
            }
        }
    }
}

/// Starts the phase `next`: every seat owes a turn and the cursor starts
/// from the first bettor.
fn enter_phase(lobby: &mut Lobby, next: GameState)
    requires
        old(lobby)@.seated(),
    ensures
        final(lobby)@ == old(lobby)@.enter_phase(next),
        final(lobby)@.seated(),
        same_chips(old(lobby)@, final(lobby)@),
        final(lobby)@.game_state == next,
        final(lobby)@.turns_remaining == old(lobby)@.current_player_count,
        is_bet_phase(next) ==> final(lobby)@.bets_within_turns(),
{
    lobby.game_state = next;
    lobby.turns_remaining = lobby.current_player_count;
    proof {
        if is_bet_phase(next) {
            lemma_bets_within_turns_after_reset(lobby@);
        }
    }
    lobby.get_next_player(true);
}

/// Ends the turn of the seat on turn in a phase that ends in `next`.
fn end_turn(lobby: &mut Lobby, next: GameState)
    requires
        old(lobby)@.seated(),
        old(lobby)@.turns_remaining > i32::MIN,
    ensures
        final(lobby)@ == old(lobby)@.end_turn(next),
        final(lobby)@.seated(),
        same_chips(old(lobby)@, final(lobby)@),
        final(lobby)@.game_state == next || final(lobby)@.game_state == old(lobby)@.game_state,
        is_bet_phase(next) && final(lobby)@.game_state != old(lobby)@.game_state
            ==> final(lobby)@.bets_within_turns(),
        1 <= old(lobby)@.turns_remaining <= old(lobby)@.current_player_count
            ==> (final(lobby)@.counts_turns()
            ==> 1 <= final(lobby)@.turns_remaining <= final(lobby)@.current_player_count),
{
    lobby.turns_remaining -= 1;
    if lobby.turns_remaining == 0 {
        enter_phase(lobby, next);
    } else {
        lobby.get_next_player(false);
    }
}

/// Ends the turn of the seat on turn in a betting phase.
fn end_bet_turn(lobby: &mut Lobby, next: GameState, bump: i32)
    requires
        old(lobby)@.seated(),
        old(lobby)@.chips_ok(),
        old(lobby)@.turns_remaining > i32::MIN,
        0 <= bump <= 1,
        bump == 1 ==> old(lobby)@.betting_round_counter < i32::MAX,
    ensures
        final(lobby)@ == old(lobby)@.end_bet_turn(next, bump as int),
        final(lobby)@.seated(),
        final(lobby)@.chips_ok(),
        is_bet_phase(next) && final(lobby)@.game_state == next && next != old(lobby)@.game_state
            ==> final(lobby)@.bets_within_turns(),
        old(lobby)@.bets_capped() ==> final(lobby)@.bets_capped(),
        final(lobby)@.deck == old(lobby)@.deck,
        1 <= old(lobby)@.turns_remaining <= old(lobby)@.current_player_count
            ==> (final(lobby)@.counts_turns()
            ==> 1 <= final(lobby)@.turns_remaining <= final(lobby)@.current_player_count),
{
    let ghost before = lobby@;
    lobby.turns_remaining -= 1;
    if lobby.check_end_game() {
        lobby.clear_betting();
        lobby.game_state = GameState::Showdown;
        proof {
            lemma_without_bets(before.turn_taken());
        }
    } else if lobby.turns_remaining == 0 {
        lobby.clear_betting();
        lobby.betting_round_counter += bump;
        proof {
            lemma_without_bets(before.turn_taken());
        }
        let ghost mid = lobby@;
        enter_phase(lobby, next);
        proof {
            lemma_same_chips(mid, lobby@);
        }
    } else {
        let ghost mid = lobby@;
        lobby.get_next_player(false);
        proof {
            lemma_same_chips(mid, lobby@);
        }
    }
}

/// The seat on turn pays the ante, or folds for want of chips.
fn ante_turn(lobby: &mut Lobby)
    requires
        old(lobby)@.round_ok(),
        old(lobby)@.game_state == GameState::Ante,
        old(lobby)@.on_turn().games_played < i32::MAX,
    ensures
        final(lobby)@ == old(lobby)@.after_ante(),
        final(lobby)@.round_ok(),
        final(lobby)@.in_round(),
{
    let ghost before = lobby@;
    let i = lobby.current_player_index as usize;
    proof {
        lemma_totals_bound(before.players, i as int);
    }
    if lobby.players[i].wallet > ANTE {
        lobby.players[i].wallet -= ANTE;
        lobby.players[i].games_played += 1;
        lobby.pot += ANTE;
        proof {
            let p = before.players[i as int];
            let q = PlayerView { wallet: p.wallet - ANTE, games_played: p.games_played + 1, ..p };
            assert(lobby@.players =~= before.players.update(i as int, q));
            lemma_totals_update(before.players, i as int, q);
        }
    } else {
        lobby.players[i].state = PlayerState::Folded;
        proof {
            let q = before.players[i as int].with_state(PlayerState::Folded);
            assert(lobby@.players =~= before.players.update(i as int, q));
            lemma_totals_update(before.players, i as int, q);
        }
    }
    let ghost mid = lobby@;
    assert(mid.chips_ok());
    let over = lobby.check_end_game();
    end_turn(
        lobby,
        if over {
            GameState::Showdown
        } else {
            GameState::DealCards
        },
    );
    proof {
        lemma_same_chips(mid, lobby@);
    }
}

/// The seat on turn takes its turn in the dealing phase of Five Card Draw.
fn deal_turn(lobby: &mut Lobby)
    requires
        old(lobby)@.round_ok(),
        old(lobby)@.game_state == GameState::DealCards,
        old(lobby)@.deck.remaining() >= 1,
    ensures
        final(lobby)@ == old(lobby)@.after_deal_turn(),
        final(lobby)@.round_ok(),
        final(lobby)@.in_round(),
        is_bet_phase(final(lobby)@.game_state) ==> final(lobby)@.bets_within_turns(),
{
    let ghost before = lobby@;
    let i = lobby.current_player_index as usize;
    if lobby.players[i].state != PlayerState::Folded {
        if lobby.players[i].hand.len() < 5 {
            let card = lobby.deck.deal();
            lobby.players[i].hand.push(card);
            let ghost mid = lobby@;
            proof {
                let p = before.players[i as int];
                assert(mid.players =~= before.players.update(
                    i as int,
                    p.with_hand(p.hand.push(before.deck.upcoming(0))),
                ));
                assert(same_chips(before, mid));
                lemma_same_chips(before, mid);
            }
            lobby.get_next_player(false);
            proof {
                lemma_same_chips(mid, lobby@);
            }
        } else {
            let over = lobby.check_end_game();
            end_turn(
                lobby,
                if over {
                    GameState::Showdown
                } else {
                    GameState::FirstBettingRound
                },
            );
            proof {
                lemma_same_chips(before, lobby@);
            }
        }
    } else {
        lobby.get_next_player(false);
        proof {
            lemma_same_chips(before, lobby@);
        }
    }
}

/// The seat on turn leaves the table in the middle of a hand.
fn drop_seat(lobby: &mut Lobby)
    requires
        old(lobby)@.seated(),
    ensures
        final(lobby)@ == old(lobby)@.dropped(),
        same_chips(old(lobby)@, final(lobby)@),
        final(lobby)@.seated(),
{
    let i = lobby.current_player_index as usize;
    lobby.players[i].state = PlayerState::Folded;
    lobby.players[i].disconnected = true;
    assert(lobby@.players =~= old(lobby)@.dropped().players);
}

/// A step in a betting phase that ends in `next`.
fn bet_turn(
    lobby: &mut Lobby,
    input: Option<&ClientMessage>,
    next: GameState,
    bump: i32,
) -> (kind: StepKind)
    requires
        old(lobby)@.round_ok(),
        is_bet_phase(old(lobby)@.game_state),
        !is_bet_phase(next),
        0 <= bump <= 1,
        bump == 1 ==> old(lobby)@.betting_round_counter < i32::MAX,
    ensures
        final(lobby)@ == old(lobby)@.after_bet_turn(given(input), next, bump as int),
        kind == old(lobby)@.bet_outcome(given(input)),
        final(lobby)@.round_ok(),
        final(lobby)@.game_state == old(lobby)@.game_state || final(lobby)@.game_state == next
            || final(lobby)@.game_state == GameState::Showdown,
{
    let ghost before = lobby@;
    proof {
        if before.bets_within_turns() && before.bet_outcome(given(input)) == StepKind::Advanced
            && before.after_bet_turn(given(input), next, bump as int).game_state
            == before.game_state && next != before.game_state {
            lemma_bets_stay_within_turns(before, given(input), next, bump as int);
        }
    }
    let i = lobby.current_player_index as usize;
    let can_act = lobby.players[i].state != PlayerState::Folded && lobby.players[i].state
        != PlayerState::AllIn;
    if can_act {
        match input {
            None => {
                return StepKind::AwaitingInput;
            },
            Some(m) => {
                match m {
                    ClientMessage::Disconnect => {
                        drop_seat(lobby);
                        proof {
                            lemma_same_chips(before, lobby@);
                        }
                    },
                    _ => {
                        let verdict = betting_round(lobby, m);
                        if !verdict.0 {
                            return StepKind::Rejected;
                        }
                        if verdict.1 {
                            lobby.turns_remaining = lobby.current_player_count;
                        }
                    },
                }
            },
        }
    }
    end_bet_turn(lobby, next, bump);
    StepKind::Advanced
}

/// A step in the drawing phase.
#[verifier::loop_isolation(false)]
fn draw_turn(lobby: &mut Lobby, input: Option<&ClientMessage>) -> (kind: StepKind)
    requires
        old(lobby)@.round_ok(),
        old(lobby)@.game_state == GameState::Draw,
        old(lobby)@.deck.remaining() >= 5,
    ensures
        final(lobby)@ == old(lobby)@.after_draw_turn(given(input)),
        kind == old(lobby)@.draw_outcome(given(input)),
        final(lobby)@.round_ok(),
        final(lobby)@.in_round(),
        is_bet_phase(final(lobby)@.game_state) ==> final(lobby)@.bets_within_turns(),
{
    let ghost before = lobby@;
    let i = lobby.current_player_index as usize;
    let can_act = lobby.players[i].state != PlayerState::Folded && lobby.players[i].state
        != PlayerState::AllIn;
    if can_act {
        match input {
            Some(ClientMessage::DrawCards { card_indices }) => {
                let wanted = card_indices.len();
                if wanted > 5 {
                    return StepKind::Rejected;
                }
                let mut new_hand = lobby.players[i].hand.clone();
                let size = new_hand.len();
                assert(new_hand@ =~= before.on_turn().hand);
                let mut k: usize = 0;
                while k < wanted
                    invariant
                        0 <= k <= wanted,
                        wanted == card_indices@.len(),
                        size == before.on_turn().hand.len(),
                        forall|j: int| 0 <= j < k ==> (#[trigger] card_indices@[j]) < size,
                    decreases wanted - k,
                {
                    if card_indices[k] >= size {
                        assert(!before.draw_legal(card_indices@));
                        return StepKind::Rejected;
                    }
                    k = k + 1;
                }
                assert(before.draw_legal(card_indices@));
                let mut k: usize = 0;
                while k < wanted
                    invariant
                        0 <= k <= wanted <= 5,
                        wanted == card_indices@.len(),
                        size == before.on_turn().hand.len(),
                        new_hand@.len() == size,
                        forall|j: int| 0 <= j < wanted ==> (#[trigger] card_indices@[j]) < size,
                        before.deck.dealable(),
                        before.deck.remaining() >= 5,
                        lobby.deck@ == before.deck.advance(k as int),
                        new_hand@ == drawn_hand(before.on_turn().hand, before.deck, card_indices@,
                            k as int),
                        lobby@ == (LobbyView { deck: lobby@.deck, ..before }),
                    decreases wanted - k,
                {
                    let card = lobby.deck.deal();
                    new_hand[card_indices[k]] = card;
                    k = k + 1;
                }
                lobby.players[i].hand = new_hand;
                proof {
                    let p = before.on_turn();
                    assert(lobby@.players =~= before.players.update(
                        i as int,
                        p.with_hand(drawn_hand(p.hand, before.deck, card_indices@, wanted as int)),
                    ));
                    assert(lobby@ =~= before.after_draw(card_indices@));
                    assert(same_chips(before, lobby@));
                    lemma_same_chips(before, lobby@);
                }
            },
            Some(ClientMessage::Disconnect) => {
                drop_seat(lobby);
                proof {
                    lemma_same_chips(before, lobby@);
                }
            },
            _ => {
                return StepKind::AwaitingInput;
            },
        }
    }
    let ghost mid = lobby@;
    end_turn(lobby, GameState::SecondBettingRound);
    proof {
        lemma_same_chips(mid, lobby@);
    }
    StepKind::Advanced
}

/// Resolves the hand and moves on to closing the round.
fn showdown_step(lobby: &mut Lobby)
    requires
        old(lobby)@.round_ok(),
        old(lobby)@.wins_fit(),
        old(lobby)@.showdown_ready(),
    ensures
        final(lobby)@ == (LobbyView {
            game_state: GameState::UpdateDb,
            ..old(lobby)@.without_bets().after_showdown()
        }),
        final(lobby)@.round_ok(),
{
    proof {
        lemma_without_bets(old(lobby)@);
        lemma_showdown_ready_without_bets(old(lobby)@);
        crate::lobby::lemma_totals_without_bets(old(lobby)@.players);
    }
    lobby.clear_betting();
    showdown(lobby);
    lobby.game_state = GameState::UpdateDb;
}

/// Closes the round and hands out what is to be written to the store.
fn update_step(lobby: &mut Lobby) -> (records: Vec<PlayerStats>)
    requires
        old(lobby)@.round_ok(),
    ensures
        final(lobby)@ == old(lobby)@.after_update(),
        records@.map_values(|r: PlayerStats| r@) == old(lobby)@.players.map_values(
            |p: PlayerView| stats_of(p),
        ),
        final(lobby)@.chips_ok(),
        final(lobby)@.bets_capped(),
        final(lobby)@.seated(),
        final(lobby)@.deck == old(lobby)@.deck,
        !final(lobby)@.in_round(),
{
    let ghost before = lobby@;
    let records = lobby.update_db();
    lobby.reset_game_for_new_round();
    proof {
        let after = lobby@;
        crate::lobby::lemma_totals_same_chips(
            after.players,
            before.players.map_values(|p: PlayerView| p.without_bet()),
        );
        crate::lobby::lemma_totals_without_bets(before.players);
    }
    records
}

/// One step of a round of Five Card Draw. `player_name` is the player whose
/// session asks for the step, `input` what that player sent, if anything.
/// Only the seat on turn moves the round; what others send is discarded.
#[verifier::rlimit(60)]
pub fn five_card_game_state_machine(
    lobby: &mut Lobby,
    player_name: &str,
    input: Option<&ClientMessage>,
) -> (result: StepResult)
    requires
        old(lobby)@.five_card_ready(),
    ensures
        final(lobby)@ == old(lobby)@.five_card_step(player_name@, given(input)),
        result.kind() == old(lobby)@.five_card_outcome(player_name@, given(input)),
        (final(lobby)@.game_state == GameState::Showdown && live_count(final(lobby)@.players) >= 2
            ==> old(lobby)@.live_hands_scorable()) ==> final(lobby)@.five_card_ready(),
        final(lobby)@.in_round() ==> final(lobby)@.round_ok(),
        final(lobby)@.within_card_budget(),
        old(lobby)@.in_round() ==> final(lobby)@.chips_ok(),
        result matches StepResult::RoundOver(records) ==> records@.map_values(
            |r: PlayerStats| r@,
        ) == old(lobby)@.players.map_values(|p: PlayerView| stats_of(p)),
{
    proof {
        if lobby@.in_round() {
            crate::budget::lemma_five_card_step_keeps_budget(lobby@, player_name@, given(input));
            crate::budget::lemma_cards_owed_bounds(lobby@.players);
            if lobby@.five_card_step(player_name@, given(input)).game_state == GameState::Showdown
                && live_count(lobby@.five_card_step(player_name@, given(input)).players) >= 2
                ==> lobby@.live_hands_scorable() {
                crate::ready::lemma_five_card_step_leaves_ready(
                    lobby@,
                    player_name@,
                    given(input),
                );
            }
        }
    }
    if lobby.current_player_turn != player_name.to_string() {
        return StepResult::NotOnTurn;
    }
    match lobby.game_state {
        GameState::StartOfRound => {
            lobby.game_state = GameState::Ante;
            lobby.turns_remaining = lobby.current_player_count;
            StepResult::Advanced
        },
        GameState::Ante => {
            ante_turn(lobby);
            StepResult::Advanced
        },
        GameState::DealCards => {
            deal_turn(lobby);
            StepResult::Advanced
        },
        GameState::FirstBettingRound => {
            let kind = bet_turn(lobby, input, GameState::Draw, 0);
            result_of(kind)
        },
        GameState::SecondBettingRound => {
            let kind = bet_turn(lobby, input, GameState::Showdown, 0);
            result_of(kind)
        },
        GameState::Draw => {
            let kind = draw_turn(lobby, input);
            result_of(kind)
        },
        GameState::Showdown => {
            showdown_step(lobby);
            StepResult::Advanced
        },
        GameState::UpdateDb => {
            let records = update_step(lobby);
            StepResult::RoundOver(records)
        },
        _ => StepResult::Idle,
    }
}

/// The result of a step that hands out no records.
fn result_of(kind: StepKind) -> (result: StepResult)
    requires
        kind != StepKind::RoundOver,
    ensures
        result.kind() == kind,
        !(result is RoundOver),
{
    match kind {
        StepKind::NotOnTurn => StepResult::NotOnTurn,
        StepKind::Idle => StepResult::Idle,
        StepKind::AwaitingInput => StepResult::AwaitingInput,
        StepKind::Rejected => StepResult::Rejected,
        _ => StepResult::Advanced,
    }
}

/// The showdown of a seven-card game.
fn seven_card_showdown_step(lobby: &mut Lobby, stud: bool)
    requires
        old(lobby)@.round_ok(),
        old(lobby)@.wins_fit(),
        old(lobby)@.game_type != GameType::FiveCardDraw,
        live_count(old(lobby)@.players) >= 2 ==> old(lobby)@.seven_card_hands(),
    ensures
        final(lobby)@ == (LobbyView {
            game_state: GameState::UpdateDb,
            ..old(lobby)@.seven_card_showdown(stud)
        }),
        final(lobby)@.round_ok(),
{
    let ghost before = lobby@;
    proof {
        lemma_without_bets(before);
        crate::lobby::lemma_totals_without_bets(before.players);
        lemma_live_same(before.players, before.without_bets().players, before.players.len() as int);
    }
    lobby.clear_betting();
    let ghost cleared = lobby@;
    if live_seats(lobby) >= 2 {
        assert(cleared.seven_card_hands()) by {
            assert forall|i: int|
                0 <= i < cleared.players.len() && (#[trigger] cleared.players[i]).state
                    != PlayerState::Folded implies crate::deal::seven_cards(
                cleared,
                cleared.players[i],
            ).len() == 7 by {
                assert(before.players[i].state != PlayerState::Folded);
                assert(crate::deal::seven_cards(before, before.players[i]).len() == 7);
            }
        }
        if stud {
            get_rid_of_x(lobby);
            proof {
                lemma_only_hands_differ(cleared, lobby@);
                let up = lobby@;
                assert forall|i: int|
                    0 <= i < up.players.len() && (#[trigger] up.players[i]).state
                        != PlayerState::Folded implies crate::deal::seven_cards(
                    up,
                    up.players[i],
                ).len() == 7 by {
                    assert(up.players[i] == cleared.players[i].with_hand(up.players[i].hand));
                    assert(cleared.players[i].state != PlayerState::Folded);
                    assert(crate::deal::seven_cards(cleared, cleared.players[i]).len() == 7);
                }
            }
        }
        let ghost shown = lobby@;
        update_players_hand(lobby);
        proof {
            lemma_only_hands_differ(shown, lobby@);
            let scored = lobby@;
            assert forall|i: int|
                0 <= i < scored.players.len() && (#[trigger] scored.players[i]).state
                    != PlayerState::Folded implies scorable(scored.game_type, scored.players[i]) by {}
        }
    }
    showdown(lobby);
    lobby.game_state = GameState::UpdateDb;
}

/// One step of a round of Seven Card Stud. `player_name` is the player whose
/// session asks for the step, `input` what that player sent, if anything.
/// Only the seat on turn moves the round; what others send is discarded.
#[verifier::rlimit(60)]
pub fn seven_card_game_state_machine(
    lobby: &mut Lobby,
    player_name: &str,
    input: Option<&ClientMessage>,
) -> (result: StepResult)
    requires
        old(lobby)@.stud_ready(),
    ensures
        final(lobby)@ == old(lobby)@.stud_step(player_name@, given(input)),
        result.kind() == old(lobby)@.stud_outcome(player_name@, given(input)),
        (final(lobby)@.game_state == GameState::Showdown && live_count(final(lobby)@.players) >= 2
            ==> old(lobby)@.seven_card_hands()) ==> final(lobby)@.stud_ready(),
        final(lobby)@.in_round() ==> final(lobby)@.round_ok(),
        old(lobby)@.in_round() ==> final(lobby)@.chips_ok(),
        final(lobby)@.within_card_budget(),
        result matches StepResult::RoundOver(records) ==> records@.map_values(
            |r: PlayerStats| r@,
        ) == old(lobby)@.players.map_values(|p: PlayerView| stats_of(p)),
{
    proof {
        if lobby@.in_round() {
            crate::budget::lemma_stud_step_keeps_budget(lobby@, player_name@, given(input));
            if lobby@.stud_step(player_name@, given(input)).game_state == GameState::Showdown
                && live_count(lobby@.stud_step(player_name@, given(input)).players) >= 2
                ==> lobby@.seven_card_hands() {
                crate::ready::lemma_stud_step_leaves_ready(lobby@, player_name@, given(input));
            }
        }
    }
    if lobby.current_player_turn != player_name.to_string() {
        return StepResult::NotOnTurn;
    }
    let ghost before = lobby@;
    match lobby.game_state {
        GameState::StartOfRound => {
            lobby.game_state = GameState::DealCards;
            lobby.turns_remaining = lobby.current_player_count;
            lobby.deal_card_counter = 1;
            lobby.betting_round_counter = 1;
            StepResult::Advanced
        },
        GameState::DealCards => {
            let round = lobby.deal_card_counter;
            proof {
                let seated = lobby@.players.len() as int;
                let live = live_count(lobby@.players);
                let per = crate::deal::stud_cards_per_seat(round as int);
                crate::showdown::lemma_live_upto(lobby@.players, 0, seated);
                assert(per * live <= per * seated) by (nonlinear_arith)
                    requires
                        0 <= live <= seated,
                        per >= 0,
                ;
            }
            deal_cards_7(lobby, round as usize);
            if round == 1 {
                lobby.deal_card_counter = 2;
                lobby.game_state = GameState::BringIn;
            } else {
                if round != 5 {
                    lobby.deal_card_counter = round + 1;
                }
                let ghost mid = lobby@;
                enter_phase(lobby, GameState::BettingRound);
                proof {
                    lemma_same_chips(mid, lobby@);
                }
            }
            StepResult::Advanced
        },
        GameState::BringIn => {
            bring_in(lobby);
            let ghost mid = lobby@;
            enter_phase(lobby, GameState::BettingRound);
            proof {
                lemma_same_chips(mid, lobby@);
            }
            StepResult::Advanced
        },
        GameState::BettingRound => {
            let next = if lobby.betting_round_counter == 5 {
                GameState::Showdown
            } else {
                GameState::DealCards
            };
            let kind = bet_turn(lobby, input, next, 1);
            result_of(kind)
        },
        GameState::Showdown => {
            seven_card_showdown_step(lobby, true);
            StepResult::Advanced
        },
        GameState::UpdateDb => {
            let records = update_step(lobby);
            StepResult::RoundOver(records)
        },
        _ => StepResult::Idle,
    }
}

/// One step of a round of Texas Hold'em. `player_name` is the player whose
/// session asks for the step, `input` what that player sent, if anything.
/// Only the seat on turn moves the round; what others send is discarded.
#[verifier::rlimit(60)]
pub fn texas_holdem_game_state_machine(
    lobby: &mut Lobby,
    player_name: &str,
    input: Option<&ClientMessage>,
) -> (result: StepResult)
    requires
        old(lobby)@.texas_ready(),
    ensures
        final(lobby)@ == old(lobby)@.texas_step(player_name@, given(input)),
        result.kind() == old(lobby)@.texas_outcome(player_name@, given(input)),
        (final(lobby)@.game_state == GameState::Showdown && live_count(final(lobby)@.players) >= 2
            ==> old(lobby)@.seven_card_hands()) ==> final(lobby)@.texas_ready(),
        final(lobby)@.in_round() ==> final(lobby)@.round_ok(),
        old(lobby)@.in_round() ==> final(lobby)@.chips_ok(),
        final(lobby)@.within_card_budget(),
        result matches StepResult::RoundOver(records) ==> records@.map_values(
            |r: PlayerStats| r@,
        ) == old(lobby)@.players.map_values(|p: PlayerView| stats_of(p)),
{
    proof {
        if lobby@.in_round() {
            crate::budget::lemma_texas_step_keeps_budget(lobby@, player_name@, given(input));
            if lobby@.texas_step(player_name@, given(input)).game_state == GameState::Showdown
                && live_count(lobby@.texas_step(player_name@, given(input)).players) >= 2
                ==> lobby@.seven_card_hands() {
                crate::ready::lemma_texas_step_leaves_ready(lobby@, player_name@, given(input));
            }
        }
    }
    if lobby.current_player_turn != player_name.to_string() {
        return StepResult::NotOnTurn;
    }
    let ghost before = lobby@;
    match lobby.game_state {
        GameState::StartOfRound => {
            lobby.game_state = GameState::SmallAndBigBlind;
            lobby.turns_remaining = lobby.current_player_count;
            lobby.deal_card_counter = 1;
            lobby.betting_round_counter = 1;
            StepResult::Advanced
        },
        GameState::SmallAndBigBlind => {
            blinds(lobby);
            lobby.first_betting_player = (lobby.first_betting_player + 3)
                % lobby.current_player_count;
            let ghost mid = lobby@;
            lobby.get_next_player(true);
            lobby.game_state = GameState::DealCards;
            proof {
                lemma_same_chips(mid, lobby@);
            }
            StepResult::Advanced
        },
        GameState::DealCards => {
            let round = lobby.deal_card_counter;
            proof {
                crate::showdown::lemma_live_upto(lobby@.players, 0, lobby@.players.len() as int);
            }
            deal_cards_texas(lobby, round as usize);
            if round == 1 {
                lobby.deal_card_counter = 2;
                let ghost mid = lobby@;
                enter_phase(lobby, GameState::BettingRound);
                proof {
                    lemma_same_chips(mid, lobby@);
                }
            } else {
                if round < 4 {
                    lobby.deal_card_counter = round + 1;
                }
                proof {
                    lemma_without_bets(lobby@);
                }
                lobby.clear_betting();
                let ghost mid = lobby@;
                enter_phase(lobby, GameState::BettingRound);
                proof {
                    lemma_same_chips(mid, lobby@);
                }
            }
            StepResult::Advanced
        },
        GameState::BettingRound => {
            let next = if lobby.betting_round_counter == 4 {
                GameState::Showdown
            } else {
                GameState::DealCards
            };
            let kind = bet_turn(lobby, input, next, 1);
            result_of(kind)
        },
        GameState::Showdown => {
            seven_card_showdown_step(lobby, false);
            StepResult::Advanced
        },
        GameState::UpdateDb => {
            let records = update_step(lobby);
            StepResult::RoundOver(records)
        },
        _ => StepResult::Idle,
    }
}

/// A phase in which turns are counted ends exactly when the turn that was
/// just taken was the last one owed.
pub proof fn lemma_phase_ends_when_no_turn_is_owed(l: LobbyView, next: GameState)
    requires
        next != l.game_state,
    ensures
        l.end_turn(next).game_state != l.game_state <==> l.turns_remaining - 1 == 0,
        l.end_turn(next).game_state != l.game_state ==> l.end_turn(next).game_state == next
            && l.end_turn(next).turns_remaining == l.current_player_count,
{
}

/// A betting phase in which two or more seats contend ends exactly when the
/// turn that was just taken was the last one owed.
pub proof fn lemma_betting_ends_when_no_turn_is_owed(l: LobbyView, next: GameState, bump: int)
    requires
        next != l.game_state,
        !l.turn_taken().hand_decided(),
    ensures
        l.end_bet_turn(next, bump).game_state != l.game_state <==> l.turns_remaining - 1 == 0,
        l.end_bet_turn(next, bump).game_state != l.game_state ==> l.end_bet_turn(
            next,
            bump,
        ).game_state == next,
{
}

/// When a betting phase ends, no seat has a bet standing that differs from
/// the highest bet: both are cleared.
pub proof fn lemma_betting_end_leaves_no_bet(l: LobbyView, next: GameState, bump: int)
    requires
        l.seated(),
        l.end_bet_turn(next, bump).game_state != l.game_state,
        next != l.game_state,
        l.game_state != GameState::Showdown,
    ensures
        l.end_bet_turn(next, bump).current_max_bet == 0,
        forall|i: int|
            0 <= i < l.players.len() ==> (#[trigger] l.end_bet_turn(next, bump).players[i]).current_bet
                == l.end_bet_turn(next, bump).current_max_bet,
{
    let t = l.turn_taken();
    let e = l.end_bet_turn(next, bump);
    assert(e.players =~= t.without_bets().players);
}

/// After the round was closed no seat has a bet standing, pot and highest
/// bet are zero, there are no community cards, the deck is as it was and can
/// be shuffled for the next round, and the lobby takes players again.
pub proof fn lemma_closed_round(l: LobbyView)
    ensures
        forall|i: int|
            0 <= i < l.players.len() ==> (#[trigger] l.after_update().players[i]).current_bet == 0
                && !l.after_update().players[i].ready,
        l.after_update().players.len() == l.players.len(),
        l.after_update().pot == 0,
        l.after_update().current_max_bet == 0,
        l.after_update().community_cards.len() == 0,
        l.after_update().deck == l.deck,
        l.after_update().game_state == GameState::Joinable,
        l.chips_ok() ==> l.after_update().chips_ok(),
{
    let after = l.after_update();
    if l.chips_ok() {
        crate::lobby::lemma_totals_same_chips(
            after.players,
            l.players.map_values(|p: PlayerView| p.without_bet()),
        );
        crate::lobby::lemma_totals_without_bets(l.players);
    }
}

/// Whether the lobby is in a state in which a round can go on: the cursor
/// points at a seat, the chip invariant holds, no seat has bet more than
/// the highest bet, the deck can be dealt from, turns are owed where they
/// are counted, and in a betting phase every seat that owes chips gets its
/// turn while turns are owed.
pub fn round_in_order(lobby: &Lobby) -> (ok: bool)
    ensures
        ok == lobby@.round_ok(),
{
    if !lobby.is_seated() || !lobby.chips_in_order() || !lobby.bets_are_capped()
        || !lobby.deck.is_dealable() {
        return false;
    }
    let betting = match lobby.game_state {
        GameState::FirstBettingRound => true,
        GameState::SecondBettingRound => true,
        GameState::BettingRound => true,
        _ => false,
    };
    if betting && !lobby.bets_fit_turns() {
        return false;
    }
    let counts = match lobby.game_state {
        GameState::Ante => true,
        GameState::FirstBettingRound => true,
        GameState::SecondBettingRound => true,
        GameState::BettingRound => true,
        GameState::Draw => true,
        GameState::DealCards => true,
        GameState::SmallAndBigBlind => true,
        GameState::BringIn => true,
        _ => false,
    };
    !counts || (1 <= lobby.turns_remaining && lobby.turns_remaining <= lobby.current_player_count)
}

/// Whether a round is running.
pub fn round_is_running(lobby: &Lobby) -> (running: bool)
    ensures
        running == lobby@.in_round(),
{
    match lobby.game_state {
        GameState::Joinable => false,
        GameState::GameLobbyFull => false,
        GameState::EndOfRound => false,
        _ => true,
    }
}

/// Number of cards that `n` seats still get in Seven Card Stud from the
/// dealing round `round` on.
fn cards_left_in_stud(round: i32, n: i32) -> (left: i32)
    requires
        0 <= n <= 10,
    ensures
        left == stud_cards_left(round as int, n as int),
        0 <= left <= 70,
{
    if round <= 1 {
        7 * n
    } else if round == 2 {
        4 * n
    } else if round == 3 {
        3 * n
    } else if round == 4 {
        2 * n
    } else if round == 5 {
        n
    } else {
        0
    }
}

/// Number of community cards that are still dealt in Texas Hold'em from the
/// dealing round `round` on.
fn community_left(round: i32) -> (left: i32)
    ensures
        left == community_cards_left(round as int),
{
    if round <= 2 {
        5
    } else if round == 3 {
        2
    } else if round == 4 {
        1
    } else {
        0
    }
}

/// Whether the next step of Five Card Draw can be taken.
pub fn five_card_can_step(lobby: &Lobby) -> (ok: bool)
    ensures
        ok == lobby@.five_card_ready(),
{
    if !round_is_running(lobby) {
        return true;
    }
    if !round_in_order(lobby) || lobby.game_type != GameType::FiveCardDraw
        || !lobby.is_within_card_budget() {
        return false;
    }
    match lobby.game_state {
        GameState::StartOfRound => lobby.wins_in_order() && lobby.plays_in_order(
            lobby.current_player_count,
        ),
        GameState::Ante => lobby.wins_in_order() && lobby.plays_in_order(lobby.turns_remaining),
        GameState::Showdown => lobby.wins_in_order() && lobby.hands_can_be_scored(),
        GameState::UpdateDb => true,
        _ => lobby.wins_in_order(),
    }
}

/// Whether the next step of Seven Card Stud can be taken.
pub fn seven_card_can_step(lobby: &Lobby) -> (ok: bool)
    ensures
        ok == lobby@.stud_ready(),
{
    if !round_is_running(lobby) {
        return true;
    }
    if !round_in_order(lobby) || lobby.game_type != GameType::SevenCardStud
        || !lobby.is_within_card_budget() {
        return false;
    }
    match lobby.game_state {
        GameState::BringIn => lobby.wins_in_order() && lobby.up_cards_dealt(),
        GameState::Showdown => lobby.wins_in_order() && (live_seats(lobby) < 2
            || lobby.seven_cards_each()),
        GameState::UpdateDb => true,
        _ => lobby.wins_in_order(),
    }
}

/// Whether the next step of Texas Hold'em can be taken.
pub fn texas_holdem_can_step(lobby: &Lobby) -> (ok: bool)
    ensures
        ok == lobby@.texas_ready(),
{
    if !round_is_running(lobby) {
        return true;
    }
    if !round_in_order(lobby) || lobby.game_type != GameType::TexasHoldEm
        || !lobby.is_within_card_budget() {
        return false;
    }
    match lobby.game_state {
        GameState::StartOfRound => lobby.no_bet_standing() && lobby.current_player_count >= 2
            && lobby.wins_in_order() && lobby.plays_in_order(1),
        GameState::SmallAndBigBlind => lobby.no_bet_standing() && lobby.current_player_count >= 2
            && lobby.wins_in_order() && lobby.plays_in_order(1),
        GameState::DealCards => lobby.wins_in_order() && (lobby.deal_card_counter != 1
            || lobby.plays_in_order(1)),
        GameState::Showdown => lobby.wins_in_order() && (live_seats(lobby) < 2
            || lobby.seven_cards_each()),
        GameState::UpdateDb => true,
        _ => lobby.wins_in_order(),
    }
}

impl Lobby {
    /// Whether no seat has bet more than the highest bet of the round.
    pub fn bets_are_capped(&self) -> (ok: bool)
        ensures
            ok == self@.bets_capped(),
    {
        let mut k: usize = 0;
        while k < self.players.len()
            invariant
                0 <= k <= self.players@.len(),
                forall|i: int|
                    0 <= i < k ==> (#[trigger] self@.players[i]).current_bet
                        <= self@.current_max_bet,
            decreases self.players@.len() - k,
        {
            if self.players[k].current_bet > self.current_max_bet {
                assert(self@.players[k as int].current_bet > self@.current_max_bet);
                return false;
            }
            k = k + 1;
        }
        true
    }

    /// Whether no seat has a bet standing and the highest bet is zero.
    pub fn no_bet_standing(&self) -> (ok: bool)
        ensures
            ok == self@.no_bet_stands(),
    {
        if self.current_max_bet != 0 {
            return false;
        }
        let mut k: usize = 0;
        while k < self.players.len()
            invariant
                0 <= k <= self.players@.len(),
                forall|i: int| 0 <= i < k ==> (#[trigger] self@.players[i]).current_bet == 0,
            decreases self.players@.len() - k,
        {
            if self.players[k].current_bet != 0 {
                assert(self@.players[k as int].current_bet != 0);
                return false;
            }
            k = k + 1;
        }
        true
    }

    /// Whether the deck holds what the rest of the round can ask of it, and
    /// the counters of the dealing and betting rounds are in step.
    pub fn is_within_card_budget(&self) -> (ok: bool)
        requires
            self@.seated(),
            self@.deck.dealable(),
        ensures
            ok == self@.within_card_budget(),
    {
        let n = self.current_player_count;
        let next = self.deck.next_card_index;
        let dc = self.deal_card_counter;
        let br = self.betting_round_counter;
        match self.game_type {
            GameType::FiveCardDraw => {
                match self.game_state {
                    GameState::Draw => self.turns_remaining <= 10 && (self.turns_remaining < -10
                        || next + 5 * self.turns_remaining <= 52),
                    GameState::StartOfRound => next + self.cards_still_owed() + 5 * n <= 52,
                    GameState::Ante => next + self.cards_still_owed() + 5 * n <= 52,
                    GameState::DealCards => next + self.cards_still_owed() + 5 * n <= 52,
                    GameState::FirstBettingRound => next + self.cards_still_owed() + 5 * n <= 52,
                    _ => true,
                }
            },
            GameType::SevenCardStud => {
                match self.game_state {
                    GameState::StartOfRound => next + 7 * n <= 52,
                    GameState::DealCards => 1 <= dc && dc <= 5 && br == dc && next + cards_left_in_stud(
                        dc,
                        n,
                    ) <= 52,
                    GameState::BringIn => dc == 2 && br == 1 && next + 4 * n <= 52,
                    GameState::BettingRound => 1 <= br && br <= 5 && dc == (if br < 5 {
                        br + 1
                    } else {
                        5
                    }) && next + cards_left_in_stud(br + 1, n) <= 52,
                    _ => true,
                }
            },
            GameType::TexasHoldEm => {
                match self.game_state {
                    GameState::StartOfRound => next + 2 * n + 5 <= 52,
                    GameState::SmallAndBigBlind => dc == 1 && br == 1 && next + 2 * n + 5 <= 52,
                    GameState::DealCards => 1 <= dc && dc <= 4 && br == dc && next + (if dc == 1 {
                        2 * n
                    } else {
                        0
                    }) + community_left(dc) <= 52,
                    GameState::BettingRound => 1 <= br && br <= 4 && dc == (if br < 4 {
                        br + 1
                    } else {
                        4
                    }) && next + community_left(br + 1) <= 52,
                    _ => true,
                }
            },
            GameType::NotSet => true,
        }
    }

    /// Number of cards that the seats together lack of five each.
    pub fn cards_still_owed(&self) -> (owed: i32)
        requires
            self@.players.len() <= 10,
        ensures
            owed == cards_owed(self@.players),
            0 <= owed <= 50,
    {
        let n = self.players.len();
        let mut owed: i32 = 0;
        let mut k: usize = 0;
        while k < n
            invariant
                0 <= k <= n,
                n == self@.players.len(),
                n <= 10,
                owed == cards_owed(self@.players.subrange(0, k as int)),
                0 <= owed <= 5 * k,
            decreases n - k,
        {
            proof {
                let upto = self@.players.subrange(0, k + 1);
                assert(upto.drop_last() =~= self@.players.subrange(0, k as int));
                assert(upto.last() == self@.players[k as int]);
            }
            let have = self.players[k].hand.len();
            if have < 5 {
                owed = owed + (5 - have as i32);
            }
            k = k + 1;
        }
        assert(self@.players.subrange(0, n as int) =~= self@.players);
        owed
    }

    /// Whether every seat can win one more game without its counter
    /// running over.
    pub fn wins_in_order(&self) -> (ok: bool)
        ensures
            ok == self@.wins_fit(),
    {
        let mut k: usize = 0;
        while k < self.players.len()
            invariant
                0 <= k <= self.players@.len(),
                forall|i: int| 0 <= i < k ==> (#[trigger] self@.players[i]).games_won < i32::MAX,
            decreases self.players@.len() - k,
        {
            if self.players[k].games_won == i32::MAX {
                assert(!(self@.players[k as int].games_won < i32::MAX));
                return false;
            }
            k = k + 1;
        }
        true
    }

    /// Whether every seat can play `room` more games without its counter
    /// running over.
    pub fn plays_in_order(&self, room: i32) -> (ok: bool)
        ensures
            ok == self@.plays_fit(room as int),
    {
        let mut k: usize = 0;
        while k < self.players.len()
            invariant
                0 <= k <= self.players@.len(),
                forall|i: int|
                    0 <= i < k ==> (#[trigger] self@.players[i]).games_played + room <= i32::MAX,
            decreases self.players@.len() - k,
        {
            if self.players[k].games_played as i64 + room as i64 > i32::MAX as i64 {
                assert(!(self@.players[k as int].games_played + room <= i32::MAX));
                return false;
            }
            k = k + 1;
        }
        true
    }

    /// Whether, where two or more seats have not folded, each of them has a
    /// hand that can be scored.
    pub fn hands_can_be_scored(&self) -> (ok: bool)
        ensures
            ok == self@.showdown_ready(),
    {
        if live_seats(self) < 2 {
            return true;
        }
        let wanted: usize = if self.game_type == GameType::FiveCardDraw {
            5
        } else {
            6
        };
        let mut k: usize = 0;
        while k < self.players.len()
            invariant
                0 <= k <= self.players@.len(),
                live_count(self@.players) >= 2,
                wanted == if self@.game_type == GameType::FiveCardDraw {
                    5int
                } else {
                    6int
                },
                forall|i: int|
                    0 <= i < k && (#[trigger] self@.players[i]).state != PlayerState::Folded
                        ==> scorable(self@.game_type, self@.players[i]),
            decreases self.players@.len() - k,
        {
            if self.players[k].state != PlayerState::Folded && self.players[k].hand.len() != wanted {
                assert(self@.players[k as int].state != PlayerState::Folded);
                assert(!scorable(self@.game_type, self@.players[k as int]));
                return false;
            }
            k = k + 1;
        }
        true
    }

    /// Whether every seat that has not folded brings seven cards to the
    /// showdown.
    pub fn seven_cards_each(&self) -> (ok: bool)
        ensures
            ok == self@.seven_card_hands(),
    {
        let texas = self.game_type == GameType::TexasHoldEm;
        let shared = self.community_cards.len();
        let mut k: usize = 0;
        while k < self.players.len()
            invariant
                0 <= k <= self.players@.len(),
                texas == (self@.game_type == GameType::TexasHoldEm),
                shared == self@.community_cards.len(),
                forall|i: int|
                    0 <= i < k && (#[trigger] self@.players[i]).state != PlayerState::Folded
                        ==> crate::deal::seven_cards(self@, self@.players[i]).len() == 7,
            decreases self.players@.len() - k,
        {
            if self.players[k].state != PlayerState::Folded {
                let own = self.players[k].hand.len();
                let seven = if texas {
                    own <= 7 && shared <= 7 && own + shared == 7
                } else {
                    own == 7
                };
                if !seven {
                    assert(crate::deal::seven_cards(self@, self@.players[k as int]).len() != 7);
                    return false;
                }
            }
            k = k + 1;
        }
        true
    }

    /// Whether every seat that has not folded has its up-card.
    pub fn up_cards_dealt(&self) -> (ok: bool)
        ensures
            ok == (forall|i: int|
                0 <= i < self@.players.len() && (#[trigger] self@.players[i]).state
                    != PlayerState::Folded ==> self@.players[i].hand.len() >= 3),
    {
        let mut k: usize = 0;
        while k < self.players.len()
            invariant
                0 <= k <= self.players@.len(),
                forall|i: int|
                    0 <= i < k && (#[trigger] self@.players[i]).state != PlayerState::Folded
                        ==> self@.players[i].hand.len() >= 3,
            decreases self.players@.len() - k,
        {
            if self.players[k].state != PlayerState::Folded && self.players[k].hand.len() < 3 {
                assert(self@.players[k as int].state != PlayerState::Folded);
                return false;
            }
            k = k + 1;
        }
        true
    }
}

} // verus!
