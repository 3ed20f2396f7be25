//! The moves of a round: bets, deals, forced bets and the showdown.

use crate::lobby::{lemma_totals_bound, lemma_totals_update, Lobby, LobbyView};
use crate::player::PlayerState;
use vstd::prelude::*;

verus! {

/// The ante of Five Card Draw.
pub const ANTE: i32 = 10;

/// The bring-in of Seven Card Stud.
pub const BRING_IN: i32 = 15;

/// The small blind of Texas Hold'em.
pub const SMALL_BLIND: i32 = 5;

/// The big blind of Texas Hold'em.
pub const BIG_BLIND: i32 = 10;

/// What a client can ask for.
#[derive(Debug)]
pub enum ClientMessage {
    Disconnect,
    Login { username: String },
    Register { username: String },
    Ready,
    Quit,
    Help,
    CreateLobby { lobby_name: String, game_type: i32 },
    JoinLobby { lobby_name: String, spectate: bool },
    ShowLobbies,
    ShowStats,
    ShowPlayers,
    ShowLobbyInfo,
    StartGame,
    UpdateInput,
    ShowHand,
    BettingRound,
    Check,
    Call,
    Raise { amount: i32 },
    Fold,
    AllIn,
    DrawCards { card_indices: Vec<usize> },
}

impl LobbyView {
    /// What the seat on turn has to pay to call.
    pub open spec fn call_amount(self) -> int {
        self.current_max_bet - self.on_turn().current_bet
    }

    /// Whether the seat on turn may make the move: a check needs that no
    /// bet stands, a call that the wallet covers it, a raise that it is
    /// positive, more than a call and within the wallet. Folding and going
    /// all-in are always allowed; nothing else is a betting move.
    pub open spec fn bet_legal(self, action: ClientMessage) -> bool {
        let p = self.on_turn();
        match action {
            ClientMessage::Check => p.current_bet == self.current_max_bet && self.current_max_bet
                == 0,
            ClientMessage::Fold => true,
            ClientMessage::Call => p.wallet >= self.call_amount(),
            ClientMessage::Raise { amount } => 0 < amount <= p.wallet && amount
                > self.call_amount(),
            ClientMessage::AllIn => true,
            _ => false,
        }
    }

    /// Whether the move lifts the highest bet, so that every other seat
    /// owes an action again.
    pub open spec fn bet_raises(self, action: ClientMessage) -> bool {
        let p = self.on_turn();
        self.bet_legal(action) && match action {
            ClientMessage::Raise { amount } => true,
            ClientMessage::AllIn => p.current_bet + p.wallet > self.current_max_bet,
            _ => false,
        }
    }

    /// The lobby after the seat on turn made the move. An illegal move
    /// changes nothing.
    pub open spec fn after_bet(self, action: ClientMessage) -> LobbyView {
        let i = self.current_player_index;
        let p = self.on_turn();
        if !self.bet_legal(action) {
            self
        } else {
            match action {
                ClientMessage::Check => self.set_player(i, p.with_state(PlayerState::Checked)),
                ClientMessage::Fold => self.set_player(i, p.with_state(PlayerState::Folded)),
                ClientMessage::Call => {
                    let amount = self.call_amount();
                    let q = p.bet(amount).with_state(
                        if p.wallet == amount {
                            PlayerState::AllIn
                        } else {
                            PlayerState::Called
                        },
                    );
                    LobbyView { pot: self.pot + amount, ..self.set_player(i, q) }
                },
                ClientMessage::Raise { amount } => {
                    let q = p.bet(amount as int).with_state(
                        if p.wallet == amount {
                            PlayerState::AllIn
                        } else {
                            PlayerState::Raised
                        },
                    );
                    LobbyView {
                        pot: self.pot + amount,
                        current_max_bet: p.current_bet + amount,
                        ..self.set_player(i, q)
                    }
                },
                ClientMessage::AllIn => {
                    let q = p.bet(p.wallet).with_state(PlayerState::AllIn);
                    LobbyView {
                        pot: self.pot + p.wallet,
                        current_max_bet: if p.current_bet + p.wallet > self.current_max_bet {
                            p.current_bet + p.wallet
                        } else {
                            self.current_max_bet
                        },
                        ..self.set_player(i, q)
                    }
                },
                _ => self,
            }
        }
    }
}

/// A betting move keeps the chip invariant, and where no seat had bet more
/// than the highest bet before it, none has after it.
pub proof fn lemma_bet_keeps_chips(l: LobbyView, action: ClientMessage)
    requires
        l.seated(),
        l.chips_ok(),
    ensures
        l.after_bet(action).chips_ok(),
        l.after_bet(action).seated(),
        l.bets_capped() ==> l.after_bet(action).bets_capped(),
{
    let i = l.current_player_index;
    let after = l.after_bet(action);
    lemma_totals_bound(l.players, i);
    lemma_totals_update(l.players, i, after.players[i]);
    if l.bet_legal(action) {
        assert(after.players =~= l.players.update(i, after.players[i]));
        assert forall|j: int| 0 <= j < after.players.len() implies 0 <= (
        #[trigger] after.players[j]).wallet && 0 <= after.players[j].current_bet by {
            if j != i {
                assert(after.players[j] == l.players[j]);
            }
        }
        if l.bets_capped() {
            assert forall|j: int| 0 <= j < after.players.len() implies (
            #[trigger] after.players[j]).current_bet <= after.current_max_bet by {
                if j != i {
                    assert(after.players[j] == l.players[j]);
                }
            }
        }
    }
}

/// A raise by exactly one chip more than a call is legal where the wallet
/// covers it, and a raise by one chip less, the amount of a call, is not.
pub proof fn lemma_minimum_raise(l: LobbyView, amount: i32)
    requires
        l.seated(),
        amount == l.call_amount() + 1,
        0 < amount <= l.on_turn().wallet,
    ensures
        l.bet_legal(ClientMessage::Raise { amount }),
        !l.bet_legal(ClientMessage::Raise { amount: (amount - 1) as i32 }),
{
}

/// A call that takes the whole wallet leaves the seat all-in, not called.
pub proof fn lemma_call_with_last_chips(l: LobbyView)
    requires
        l.seated(),
        l.on_turn().wallet == l.call_amount(),
    ensures
        l.bet_legal(ClientMessage::Call),
        l.after_bet(ClientMessage::Call).on_turn().state == PlayerState::AllIn,
        l.after_bet(ClientMessage::Call).on_turn().wallet == 0,
        l.after_bet(ClientMessage::Call).on_turn().current_bet == l.current_max_bet,
{
}

/// Applies a betting move of the seat on turn. Returns whether the move was
/// legal and whether it lifted the highest bet. An illegal move changes
/// nothing.
pub fn betting_round(lobby: &mut Lobby, action: &ClientMessage) -> (verdict: (bool, bool))
    requires
        old(lobby)@.seated(),
        old(lobby)@.chips_ok(),
    ensures
        verdict.0 == old(lobby)@.bet_legal(*action),
        verdict.1 == old(lobby)@.bet_raises(*action),
        final(lobby)@ == old(lobby)@.after_bet(*action),
        final(lobby)@.chips_ok(),
        final(lobby)@.seated(),
        old(lobby)@.bets_capped() ==> final(lobby)@.bets_capped(),
{
    let i = lobby.current_player_index as usize;
    let player_prev_bet = lobby.players[i].current_bet;
    let wallet = lobby.players[i].wallet;
    let current_max_bet = lobby.current_max_bet;
    let ghost before = lobby@;
    proof {
        lemma_bet_keeps_chips(before, *action);
        lemma_totals_bound(before.players, i as int);
        assert(before.on_turn() == before.players[i as int]);
    }
    let verdict = match action {
        ClientMessage::Check => {
            if player_prev_bet == current_max_bet && current_max_bet == 0 {
                lobby.players[i].state = PlayerState::Checked;
                (true, false)
            } else {
                (false, false)
            }
        },
        ClientMessage::Fold => {
            lobby.players[i].state = PlayerState::Folded;
            (true, false)
        },
        ClientMessage::Call => {
            let call_amount = current_max_bet - player_prev_bet;
            if wallet >= call_amount {
                lobby.players[i].wallet = wallet - call_amount;
                lobby.pot = lobby.pot + call_amount;
                lobby.players[i].current_bet = current_max_bet;
                if wallet - call_amount == 0 {
                    lobby.players[i].state = PlayerState::AllIn;
                } else {
                    lobby.players[i].state = PlayerState::Called;
                }
                (true, false)
            } else {
                (false, false)
            }
        },
        ClientMessage::Raise { amount } => {
            let amount: i32 = *amount;
            if amount > 0 && amount <= wallet && amount > current_max_bet - player_prev_bet {
                lobby.players[i].wallet = wallet - amount;
                lobby.pot = lobby.pot + amount;
                lobby.players[i].current_bet = player_prev_bet + amount;
                lobby.current_max_bet = player_prev_bet + amount;
                if wallet - amount == 0 {
                    lobby.players[i].state = PlayerState::AllIn;
                } else {
                    lobby.players[i].state = PlayerState::Raised;
                }
                (true, true)
            } else {
                (false, false)
            }
        },
        ClientMessage::AllIn => {
            lobby.players[i].state = PlayerState::AllIn;
            lobby.players[i].wallet = 0;
            lobby.players[i].current_bet = player_prev_bet + wallet;
            lobby.pot = lobby.pot + wallet;
            if player_prev_bet + wallet > current_max_bet {
                lobby.current_max_bet = player_prev_bet + wallet;
                (true, true)
            } else {
                (true, false)
            }
        },
        _ => (false, false),
    };
    proof {
        let after = before.after_bet(*action);
        if before.bet_legal(*action) {
            assert(lobby@.players =~= before.players.update(i as int, after.players[i as int]));
            assert(after.players =~= before.players.update(i as int, after.players[i as int]));
        }
        assert(lobby@ =~= after);
    }
    verdict
}

} // verus!
