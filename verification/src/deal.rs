//! Dealing, forced bets and the preparation of hands for the showdown.

use crate::cards::{card_rank, card_suit, face_up, rank_of, suit_of};
use crate::deck::DeckView;
use crate::games::{BIG_BLIND, BRING_IN, SMALL_BLIND};
use crate::hand::{best_of_7, get_best_hand, HandScore};
use crate::lobby::{
    lemma_same_chips, lemma_totals_bound, lemma_totals_same_chips, lemma_totals_update, same_chips,
    total_bets, GameType, Lobby, LobbyView,
};
use crate::player::{seats, PlayerState, PlayerView};
use crate::showdown::{lemma_live_upto, live_count, live_upto};
use vstd::prelude::*;

verus! {

/// Number of cards that a seat gets in a dealing round of Seven Card Stud:
/// three in the first round, one in every later round.
pub open spec fn stud_cards_per_seat(round: int) -> int {
    if round == 1 {
        3
    } else {
        1
    }
}

/// The `k`-th card that a seat holding `have` cards gets in a dealing round
/// of Seven Card Stud: in the first round the cards that become the first
/// and second of the hand are face down, in the fifth round the card is face
/// down, every other card is face up.
pub open spec fn stud_card(deck: DeckView, k: int, have: int, round: int) -> i32 {
    let card = deck.upcoming(k);
    if (round == 1 && have + k < 2) || round == 5 {
        (card + 53) as i32
    } else {
        card
    }
}

/// A seat after it was dealt its cards of a round of Seven Card Stud.
pub open spec fn stud_deal_to(p: PlayerView, deck: DeckView, round: int) -> PlayerView {
    p.with_hand(
        p.hand + Seq::new(
            stud_cards_per_seat(round) as nat,
            |k: int| stud_card(deck, k, p.hand.len() as int, round),
        ),
    )
}

/// Seats and deck after the first `upto` seats were served in a dealing
/// round of Seven Card Stud. Folded seats get nothing.
pub open spec fn stud_deal(players: Seq<PlayerView>, deck: DeckView, round: int, upto: int) -> (
    Seq<PlayerView>,
    DeckView,
)
    decreases upto,
{
    if upto <= 0 {
        (players, deck)
    } else {
        let (ps, d) = stud_deal(players, deck, round, upto - 1);
        let p = ps[upto - 1];
        if p.state == PlayerState::Folded {
            (ps, d)
        } else {
            (ps.update(upto - 1, stud_deal_to(p, d, round)), d.advance(stud_cards_per_seat(round)))
        }
    }
}

/// A seat after the hole cards were dealt: two cards for a seat that has
/// not folded, and one more game played for every seat.
pub open spec fn hole_deal_to(p: PlayerView, deck: DeckView) -> PlayerView {
    if p.state == PlayerState::Folded {
        PlayerView { games_played: p.games_played + 1, ..p }
    } else {
        PlayerView {
            hand: p.hand.push(deck.upcoming(0)).push(deck.upcoming(1)),
            games_played: p.games_played + 1,
            ..p
        }
    }
}

/// Seats and deck after the first `upto` seats got their hole cards.
pub open spec fn hole_deal(players: Seq<PlayerView>, deck: DeckView, upto: int) -> (
    Seq<PlayerView>,
    DeckView,
)
    decreases upto,
{
    if upto <= 0 {
        (players, deck)
    } else {
        let (ps, d) = hole_deal(players, deck, upto - 1);
        let p = ps[upto - 1];
        (
            ps.update(upto - 1, hole_deal_to(p, d)),
            if p.state == PlayerState::Folded {
                d
            } else {
                d.advance(2)
            },
        )
    }
}

/// Number of community cards that a dealing round of Texas Hold'em adds:
/// none in the first round, three in the second, one in every later round.
pub open spec fn community_cards_of_round(round: int) -> int {
    if round == 1 {
        0
    } else if round == 2 {
        3
    } else {
        1
    }
}

/// Place of a suit in the order that breaks ties for the bring-in: spades,
/// hearts, diamonds, clubs.
pub open spec fn suit_order(suit: int) -> int {
    if suit == 2 {
        0
    } else if suit == 0 {
        1
    } else if suit == 1 {
        2
    } else {
        3
    }
}

/// What the up-cards are compared by for the bring-in: the rank, with the
/// ace lowest, then the suit in the order spades, hearts, diamonds, clubs.
pub open spec fn up_card_key(card: i32) -> int {
    card_rank(card as int) * 4 + suit_order(card_suit(card as int))
}

/// `s` is the seat that pays the bring-in: among the seats that have not
/// folded the one whose up-card, the third card of the hand, is lowest, the
/// first of them if several show equal cards; seat 0 if every seat folded.
pub open spec fn is_bring_in_seat(players: Seq<PlayerView>, s: int) -> bool {
    if forall|j: int| 0 <= j < players.len() ==> (#[trigger] players[j]).state == PlayerState::Folded {
        s == 0
    } else {
        &&& 0 <= s < players.len()
        &&& players[s].state != PlayerState::Folded
        &&& forall|j: int|
            0 <= j < players.len() && (#[trigger] players[j]).state != PlayerState::Folded
                ==> up_card_key(players[s].hand[2]) <= up_card_key(players[j].hand[2])
        &&& forall|j: int|
            0 <= j < s && (#[trigger] players[j]).state != PlayerState::Folded ==> up_card_key(
                players[s].hand[2],
            ) < up_card_key(players[j].hand[2])
    }
}

/// The seat that pays the bring-in.
pub open spec fn bring_in_seat(players: Seq<PlayerView>) -> int {
    choose|s: int| is_bring_in_seat(players, s)
}

/// There is only one seat that pays the bring-in.
pub proof fn lemma_bring_in_seat_unique(players: Seq<PlayerView>, s: int)
    requires
        is_bring_in_seat(players, s),
    ensures
        bring_in_seat(players) == s,
{
    let t = bring_in_seat(players);
    assert(is_bring_in_seat(players, t));
    if !(forall|j: int| 0 <= j < players.len()
        ==> (#[trigger] players[j]).state == PlayerState::Folded) {
        if s < t {
            assert(players[s].state != PlayerState::Folded);
        } else if t < s {
            assert(players[t].state != PlayerState::Folded);
        }
    }
}

/// Among the first `k` seats, one that has not folded shows the lowest
/// up-card and sits before every other seat that shows an equal one, unless
/// all of them have folded.
proof fn lemma_lowest_up_card(players: Seq<PlayerView>, k: int) -> (r: (bool, int))
    requires
        0 <= k <= players.len(),
    ensures
        !r.0 ==> forall|j: int| 0 <= j < k ==> (#[trigger] players[j]).state == PlayerState::Folded,
        r.0 ==> {
            &&& 0 <= r.1 < k
            &&& players[r.1].state != PlayerState::Folded
            &&& forall|j: int|
                0 <= j < k && (#[trigger] players[j]).state != PlayerState::Folded ==> up_card_key(
                    players[r.1].hand[2],
                ) <= up_card_key(players[j].hand[2])
            &&& forall|j: int|
                0 <= j < r.1 && (#[trigger] players[j]).state != PlayerState::Folded
                    ==> up_card_key(players[r.1].hand[2]) < up_card_key(players[j].hand[2])
        },
    decreases k,
{
    if k == 0 {
        (false, 0)
    } else {
        let prev = lemma_lowest_up_card(players, k - 1);
        if players[k - 1].state == PlayerState::Folded {
            prev
        } else if !prev.0 || up_card_key(players[k - 1].hand[2]) < up_card_key(
            players[prev.1].hand[2],
        ) {
            (true, k - 1)
        } else {
            prev
        }
    }
}

/// At a table with a seat there is a seat that pays the bring-in.
pub proof fn lemma_bring_in_seat_exists(players: Seq<PlayerView>)
    requires
        players.len() >= 1,
    ensures
        is_bring_in_seat(players, bring_in_seat(players)),
        0 <= bring_in_seat(players) < players.len(),
{
    let r = lemma_lowest_up_card(players, players.len() as int);
    if r.0 {
        assert(is_bring_in_seat(players, r.1));
    } else {
        assert(is_bring_in_seat(players, 0));
    }
}

/// The cards that a seat brings to the showdown of a seven-card game: its
/// own, in Texas Hold'em followed by the community cards.
pub open spec fn seven_cards(l: LobbyView, p: PlayerView) -> Seq<i32> {
    if l.game_type == GameType::TexasHoldEm {
        p.hand + l.community_cards
    } else {
        p.hand
    }
}

/// A score written as a hand of six numbers.
pub open spec fn score_as_hand(s: HandScore) -> Seq<i32> {
    seq![s.0, s.1, s.2, s.3, s.4, s.5]
}

impl LobbyView {
    /// The lobby after a dealing round of Seven Card Stud.
    pub open spec fn after_stud_deal(self, round: int) -> LobbyView {
        let dealt = stud_deal(self.players, self.deck, round, self.players.len() as int);
        LobbyView { players: dealt.0, deck: dealt.1, ..self }
    }

    /// The lobby after a dealing round of Texas Hold'em: hole cards in the
    /// first round, community cards in the later ones.
    pub open spec fn after_texas_deal(self, round: int) -> LobbyView {
        if round == 1 {
            let dealt = hole_deal(self.players, self.deck, self.players.len() as int);
            LobbyView { players: dealt.0, deck: dealt.1, ..self }
        } else {
            let n = community_cards_of_round(round);
            LobbyView {
                community_cards: self.community_cards + Seq::new(
                    n as nat,
                    |k: int| self.deck.upcoming(k),
                ),
                deck: self.deck.advance(n),
                ..self
            }
        }
    }

    /// The seat that posts the small blind.
    pub open spec fn small_blind_seat(self) -> int {
        (self.first_betting_player + 1) % self.current_player_count
    }

    /// The seat that posts the big blind.
    pub open spec fn big_blind_seat(self) -> int {
        (self.first_betting_player + 2) % self.current_player_count
    }

    /// The lobby after seat `i` made a forced bet of `due` chips: what the
    /// seat can pay of it is in the pot.
    pub open spec fn after_forced_bet(self, i: int, due: int) -> LobbyView {
        LobbyView {
            pot: self.pot + self.players[i].forced_payment(due),
            ..self.set_player(i, self.players[i].post(due))
        }
    }

    /// The lobby after the blinds were posted: the two seats after the first
    /// bettor pay 5 and 10 into the pot, or what they have where that is
    /// less, and the highest bet is the big blind.
    pub open spec fn after_blinds(self) -> LobbyView {
        let l = self.after_forced_bet(self.small_blind_seat(), SMALL_BLIND as int).after_forced_bet(
            self.big_blind_seat(),
            BIG_BLIND as int,
        );
        LobbyView { current_max_bet: BIG_BLIND as int, ..l }
    }

    /// The lobby after the bring-in was paid: the seat with the lowest
    /// up-card pays 15 into the pot and counts as having called; a seat
    /// with less than 15 pays what it has and is all-in. The seat bets
    /// first, and the highest bet is at least its bet.
    pub open spec fn after_bring_in(self) -> LobbyView {
        let s = bring_in_seat(self.players);
        let l = self.after_forced_bet(s, BRING_IN as int);
        let q = l.players[s];
        LobbyView {
            first_betting_player: s,
            current_max_bet: if q.current_bet > self.current_max_bet {
                q.current_bet
            } else {
                self.current_max_bet
            },
            ..l.set_player(
                s,
                if self.players[s].wallet < BRING_IN {
                    q
                } else {
                    q.with_state(PlayerState::Called)
                },
            )
        }
    }

    /// The lobby with every card of the seats that have not folded turned
    /// face up.
    pub open spec fn faces_up(self) -> LobbyView {
        LobbyView {
            players: self.players.map_values(
                |p: PlayerView|
                    if p.state == PlayerState::Folded {
                        p
                    } else {
                        p.with_hand(p.hand.map_values(|c: i32| face_up(c)))
                    },
            ),
            ..self
        }
    }

    /// Every seat that has not folded brings seven cards to the showdown.
    pub open spec fn seven_card_hands(self) -> bool {
        forall|i: int|
            0 <= i < self.players.len() && (#[trigger] self.players[i]).state
                != PlayerState::Folded ==> seven_cards(self, self.players[i]).len() == 7
    }

    /// The lobby with the hand of every seat that has not folded replaced by
    /// the best score that five of its seven cards reach.
    pub open spec fn with_best_hands(self) -> LobbyView {
        LobbyView {
            players: self.players.map_values(
                |p: PlayerView|
                    if p.state == PlayerState::Folded {
                        p
                    } else {
                        p.with_hand(score_as_hand(best_of_7(seven_cards(self, p))))
                    },
            ),
            ..self
        }
    }
}

/// Dealing changes no wallet, no bet and no counter, leaves the seats that
/// were not served as they were, and takes at most the cards of a round
/// per seat from the deck.
pub proof fn lemma_stud_deal_keeps_chips(players: Seq<PlayerView>, deck: DeckView, round: int, upto: int)
    requires
        0 <= upto <= players.len(),
    ensures
        stud_deal(players, deck, round, upto).0.len() == players.len(),
        forall|i: int|
            0 <= i < players.len() ==> (#[trigger] stud_deal(players, deck, round, upto).0[i]).wallet
                == players[i].wallet && stud_deal(players, deck, round, upto).0[i].current_bet
                == players[i].current_bet && stud_deal(players, deck, round, upto).0[i].games_played
                == players[i].games_played && stud_deal(players, deck, round, upto).0[i].games_won
                == players[i].games_won && stud_deal(players, deck, round, upto).0[i].name
                == players[i].name,
        forall|i: int|
            upto <= i < players.len() ==> stud_deal(players, deck, round, upto).0[i] == players[i],
        stud_deal(players, deck, round, upto).1.cards == deck.cards,
        deck.next <= stud_deal(players, deck, round, upto).1.next <= deck.next + upto
            * stud_cards_per_seat(round),
        stud_deal(players, deck, round, upto).1.next == deck.next + stud_cards_per_seat(round)
            * live_upto(players, upto),
        forall|i: int|
            0 <= i < players.len() ==> (#[trigger] stud_deal(players, deck, round, upto).0[i]).state
                == players[i].state && stud_deal(players, deck, round, upto).0[i].disconnected
                == players[i].disconnected && stud_deal(players, deck, round, upto).0[i].hand.len()
                == players[i].hand.len() + if i < upto && players[i].state != PlayerState::Folded {
                stud_cards_per_seat(round)
            } else {
                0
            },
    decreases upto,
{
    if upto > 0 {
        lemma_stud_deal_keeps_chips(players, deck, round, upto - 1);
        assert((upto - 1) * stud_cards_per_seat(round) + stud_cards_per_seat(round) == upto
            * stud_cards_per_seat(round)) by (nonlinear_arith);
        let per = stud_cards_per_seat(round);
        let live = live_upto(players, upto - 1);
        assert(per * (live + 1) == per * live + per) by (nonlinear_arith);
    }
}

/// Dealing hole cards changes no wallet and no bet, leaves the seats that
/// were not served as they were, and takes at most two cards per seat from
/// the deck.
pub proof fn lemma_hole_deal_keeps_chips(players: Seq<PlayerView>, deck: DeckView, upto: int)
    requires
        0 <= upto <= players.len(),
    ensures
        hole_deal(players, deck, upto).0.len() == players.len(),
        forall|i: int|
            0 <= i < players.len() ==> (#[trigger] hole_deal(players, deck, upto).0[i]).wallet
                == players[i].wallet && hole_deal(players, deck, upto).0[i].current_bet
                == players[i].current_bet && hole_deal(players, deck, upto).0[i].name
                == players[i].name,
        forall|i: int| upto <= i < players.len() ==> hole_deal(players, deck, upto).0[i] == players[i],
        hole_deal(players, deck, upto).1.cards == deck.cards,
        deck.next <= hole_deal(players, deck, upto).1.next <= deck.next + 2 * upto,
        hole_deal(players, deck, upto).1.next == deck.next + 2 * live_upto(players, upto),
        forall|i: int|
            0 <= i < players.len() ==> (#[trigger] hole_deal(players, deck, upto).0[i]).state
                == players[i].state && hole_deal(players, deck, upto).0[i].games_won
                == players[i].games_won && hole_deal(players, deck, upto).0[i].hand.len()
                == players[i].hand.len() + if i < upto && players[i].state != PlayerState::Folded {
                2int
            } else {
                0int
            },
    decreases upto,
{
    if upto > 0 {
        lemma_hole_deal_keeps_chips(players, deck, upto - 1);
    }
}

/// Deals one round of Seven Card Stud to every seat that has not folded:
/// in the first round two cards face down and one face up, in rounds two to
/// four one card face up, in the fifth round one card face down.
pub fn deal_cards_7(lobby: &mut Lobby, round: usize)
    requires
        old(lobby)@.deck.dealable(),
        old(lobby)@.deck.remaining() >= stud_cards_per_seat(round as int) * live_count(
            old(lobby)@.players,
        ),
    ensures
        final(lobby)@ == old(lobby)@.after_stud_deal(round as int),
        final(lobby)@.deck.dealable(),
        old(lobby)@.chips_ok() ==> final(lobby)@.chips_ok(),
        old(lobby)@.bets_capped() ==> final(lobby)@.bets_capped(),
        old(lobby)@.seated() ==> final(lobby)@.seated(),
{
    let n = lobby.players.len();
    let ghost before = lobby@;
    let ghost per = stud_cards_per_seat(round as int);
    let mut i: usize = 0;
    while i < n
        invariant
            0 <= i <= n,
            n == before.players.len(),
            per == stud_cards_per_seat(round as int),
            before == old(lobby)@,
            before.deck.dealable(),
            before.deck.remaining() >= per * live_count(before.players),
            (seats(lobby.players@), lobby.deck@) == stud_deal(
                before.players,
                before.deck,
                round as int,
                i as int,
            ),
            lobby@ == (LobbyView { players: lobby@.players, deck: lobby@.deck, ..before }),
        decreases n - i,
    {
        proof {
            lemma_stud_deal_keeps_chips(before.players, before.deck, round as int, i as int);
            lemma_live_upto(before.players, i as int + 1, n as int);
            let done = live_upto(before.players, i as int);
            let all = live_count(before.players);
            if before.players[i as int].state != PlayerState::Folded {
                assert(per * done + per <= per * all) by (nonlinear_arith)
                    requires
                        done + 1 <= all,
                        per >= 0,
                ;
            }
        }
        let ghost seat_before = lobby@.players[i as int];
        let ghost deck_before = lobby.deck@;
        let ghost players_before = lobby.players@;
        if lobby.players[i].state != PlayerState::Folded {
            let mut hand = lobby.players[i].hand.clone();
            let have = hand.len();
            assert(hand@ =~= seat_before.hand);
            if round == 1 {
                let mut count: usize = 0;
                while count < 3
                    invariant
                        0 <= count <= 3,
                        round == 1,
                        deck_before.dealable(),
                        deck_before.next + 3 <= 52,
                        lobby.deck@ == deck_before.advance(count as int),
                        lobby.players@ == players_before,
                        have == seat_before.hand.len(),
                        hand@ == seat_before.hand + Seq::new(
                            count as nat,
                            |k: int| stud_card(deck_before, k, have as int, 1),
                        ),
                        lobby@ == (LobbyView { players: lobby@.players, deck: lobby@.deck, ..before }),
                    decreases 3 - count,
                {
                    assert(0 <= deck_before.cards[deck_before.next + count] <= 51);
                    let ghost hand_before = hand@;
                    let card = lobby.deck.deal();
                    let card_value = if hand.len() < 2 {
                        card + 53
                    } else {
                        card
                    };
                    hand.push(card_value);
                    proof {
                        assert(card_value == stud_card(deck_before, count as int, have as int, 1));
                        assert(hand@ =~= seat_before.hand + Seq::new(
                            (count + 1) as nat,
                            |k: int| stud_card(deck_before, k, have as int, 1),
                        ));
                    }
                    count = count + 1;
                }
            } else {
                assert(0 <= deck_before.cards[deck_before.next] <= 51);
                let card = lobby.deck.deal();
                let card_value = if round == 5 {
                    card + 53
                } else {
                    card
                };
                hand.push(card_value);
                proof {
                    assert(hand@ =~= seat_before.hand + Seq::new(
                        1,
                        |k: int| stud_card(deck_before, k, have as int, round as int),
                    ));
                }
            }
            lobby.players[i].hand = hand;
            proof {
                assert(lobby.players@[i as int]@ == stud_deal_to(
                    seat_before,
                    deck_before,
                    round as int,
                ));
                assert(seats(lobby.players@) =~= stud_deal(
                    before.players,
                    before.deck,
                    round as int,
                    i as int,
                ).0.update(i as int, stud_deal_to(seat_before, deck_before, round as int)));
            }
        }
        i = i + 1;
    }
    proof {
        lemma_stud_deal_keeps_chips(before.players, before.deck, round as int, n as int);
        lemma_totals_same_chips(lobby@.players, before.players);
        assert(per * n == n * per) by (nonlinear_arith);
    }
}

/// Two lobbies differ in nothing but the hands of their seats.
pub open spec fn only_hands_differ(a: LobbyView, b: LobbyView) -> bool {
    &&& b == (LobbyView { players: b.players, ..a })
    &&& a.players.len() == b.players.len()
    &&& forall|i: int|
        0 <= i < a.players.len() ==> #[trigger] b.players[i] == a.players[i].with_hand(
            b.players[i].hand,
        )
}

/// What does not depend on the hands holds of both of two lobbies that
/// differ in nothing but the hands.
pub proof fn lemma_only_hands_differ(a: LobbyView, b: LobbyView)
    requires
        only_hands_differ(a, b),
    ensures
        same_chips(a, b),
        a.chips_ok() ==> b.chips_ok(),
        a.bets_capped() ==> b.bets_capped(),
        a.seated() ==> b.seated(),
        a.wf() ==> b.wf(),
        a.wins_fit() ==> b.wins_fit(),
        crate::showdown::live_count(a.players) == crate::showdown::live_count(b.players),
        crate::lobby::contenders(a.players) == crate::lobby::contenders(b.players),
        total_bets(a.players) == total_bets(b.players),
{
    assert forall|i: int| 0 <= i < a.players.len() implies (#[trigger] a.players[i]).wallet
        == b.players[i].wallet && a.players[i].current_bet == b.players[i].current_bet
        && a.players[i].state == b.players[i].state && a.players[i].disconnected
        == b.players[i].disconnected by {
        assert(b.players[i] == a.players[i].with_hand(b.players[i].hand));
    }
    lemma_same_chips(a, b);
    lemma_totals_same_chips(a.players, b.players);
    crate::showdown::lemma_live_same(a.players, b.players, a.players.len() as int);
    crate::lobby::lemma_contenders_same(a.players, b.players);
    if a.wins_fit() {
        assert forall|i: int| 0 <= i < b.players.len() implies (#[trigger] b.players[i]).games_won
            < i32::MAX by {
            assert(b.players[i] == a.players[i].with_hand(b.players[i].hand));
            assert(a.players[i].games_won < i32::MAX);
        }
    }
}

/// Deals one round of Texas Hold'em: in the first round two hole cards to
/// every seat that has not folded, and every seat has played one more game;
/// in the second round three community cards, in every later round one.
pub fn deal_cards_texas(lobby: &mut Lobby, round: usize)
    requires
        old(lobby)@.deck.dealable(),
        round == 1 ==> old(lobby)@.plays_fit(1) && old(lobby)@.deck.remaining() >= 2 * live_count(
            old(lobby)@.players,
        ),
        round != 1 ==> old(lobby)@.deck.remaining() >= community_cards_of_round(round as int),
    ensures
        final(lobby)@ == old(lobby)@.after_texas_deal(round as int),
        final(lobby)@.deck.dealable(),
        old(lobby)@.chips_ok() ==> final(lobby)@.chips_ok(),
        old(lobby)@.bets_capped() ==> final(lobby)@.bets_capped(),
        old(lobby)@.seated() ==> final(lobby)@.seated(),
{
    let ghost before = lobby@;
    if round == 1 {
        let n = lobby.players.len();
        let mut i: usize = 0;
        while i < n
            invariant
                0 <= i <= n,
                n == before.players.len(),
                before == old(lobby)@,
                before.deck.dealable(),
                before.plays_fit(1),
                before.deck.remaining() >= 2 * live_count(before.players),
                (seats(lobby.players@), lobby.deck@) == hole_deal(
                    before.players,
                    before.deck,
                    i as int,
                ),
                lobby@ == (LobbyView { players: lobby@.players, deck: lobby@.deck, ..before }),
            decreases n - i,
        {
            proof {
                lemma_hole_deal_keeps_chips(before.players, before.deck, i as int);
                lemma_live_upto(before.players, i as int + 1, n as int);
            }
            let ghost seat_before = lobby@.players[i as int];
            let ghost deck_before = lobby.deck@;
            assert(seat_before == before.players[i as int]);
            if lobby.players[i].state != PlayerState::Folded {
                let first = lobby.deck.deal();
                let second = lobby.deck.deal();
                lobby.players[i].hand.push(first);
                lobby.players[i].hand.push(second);
            }
            lobby.players[i].games_played += 1;
            proof {
                assert(lobby.players@[i as int]@ =~= hole_deal_to(seat_before, deck_before));
                assert(seats(lobby.players@) =~= hole_deal(before.players, before.deck,
                    i as int).0.update(
                    i as int,
                    hole_deal_to(seat_before, deck_before),
                ));
            }
            i = i + 1;
        }
        proof {
            lemma_hole_deal_keeps_chips(before.players, before.deck, n as int);
        }
    } else {
        let wanted: usize = if round == 2 {
            3
        } else {
            1
        };
        let mut k: usize = 0;
        while k < wanted
            invariant
                0 <= k <= wanted <= 3,
                wanted == community_cards_of_round(round as int),
                before.deck.dealable(),
                before.deck.remaining() >= wanted,
                lobby.deck@ == before.deck.advance(k as int),
                lobby.community_cards@ == before.community_cards + Seq::new(
                    k as nat,
                    |j: int| before.deck.upcoming(j),
                ),
                lobby@ == (LobbyView {
                    community_cards: lobby@.community_cards,
                    deck: lobby@.deck,
                    ..before
                }),
            decreases wanted - k,
        {
            let card = lobby.deck.deal();
            lobby.community_cards.push(card);
            assert(lobby.community_cards@ =~= before.community_cards + Seq::new(
                (k + 1) as nat,
                |j: int| before.deck.upcoming(j),
            ));
            k = k + 1;
        }
    }
    proof {
        assert(same_chips(before, lobby@));
        lemma_same_chips(before, lobby@);
    }
}

/// A forced bet keeps the chip invariant and the seating, and leaves every
/// other seat as it was.
pub proof fn lemma_forced_bet_keeps_chips(l: LobbyView, i: int, due: int)
    requires
        l.chips_ok(),
        0 <= i < l.players.len(),
        0 <= due,
    ensures
        l.after_forced_bet(i, due).chips_ok(),
        l.seated() ==> l.after_forced_bet(i, due).seated(),
        0 <= l.players[i].forced_payment(due) <= due,
        l.after_forced_bet(i, due).players.len() == l.players.len(),
        forall|j: int|
            0 <= j < l.players.len() && j != i ==> #[trigger] l.after_forced_bet(i, due).players[j]
                == l.players[j],
        l.after_forced_bet(i, due).players[i].current_bet == l.players[i].current_bet
            + l.players[i].forced_payment(due),
{
    let after = l.after_forced_bet(i, due);
    lemma_totals_bound(l.players, i);
    lemma_totals_update(l.players, i, after.players[i]);
    assert forall|j: int| 0 <= j < after.players.len() implies 0 <= (#[trigger] after.players[j]).wallet
        && 0 <= after.players[j].current_bet by {
        if j != i {
            assert(after.players[j] == l.players[j]);
        }
    }
}

/// Blinds that the two seats can pay in full: the seat after the first
/// bettor has paid 5 and the next seat 10, the pot holds 15 more, the
/// highest bet is 10, and nothing else about any seat has changed.
pub proof fn lemma_blinds_paid_in_full(l: LobbyView)
    requires
        l.seated(),
        l.current_player_count >= 2,
        l.players[l.small_blind_seat()].wallet >= SMALL_BLIND,
        l.players[l.big_blind_seat()].wallet >= BIG_BLIND,
    ensures
        l.small_blind_seat() != l.big_blind_seat(),
        l.after_blinds().players.len() == l.players.len(),
        l.after_blinds().players[l.small_blind_seat()] == l.players[l.small_blind_seat()].bet(
            SMALL_BLIND as int,
        ),
        l.after_blinds().players[l.big_blind_seat()] == l.players[l.big_blind_seat()].bet(
            BIG_BLIND as int,
        ),
        forall|j: int|
            0 <= j < l.players.len() && j != l.small_blind_seat() && j != l.big_blind_seat()
                ==> #[trigger] l.after_blinds().players[j] == l.players[j],
        l.after_blinds().pot == l.pot + SMALL_BLIND + BIG_BLIND,
        l.after_blinds().current_max_bet == BIG_BLIND,
{
    lemma_blind_seats_differ(l.first_betting_player, l.current_player_count);
    vstd::arithmetic::div_mod::lemma_mod_bound(l.first_betting_player + 1, l.current_player_count);
    vstd::arithmetic::div_mod::lemma_mod_bound(l.first_betting_player + 2, l.current_player_count);
}

/// A bring-in that the seat can pay in full: the seat with the lowest
/// up-card among those that have not folded has paid 15 and counts as
/// having called, the pot holds 15 more, the seat bets first, and nothing
/// else about any seat has changed.
pub proof fn lemma_bring_in_paid_in_full(l: LobbyView)
    requires
        l.players.len() >= 1,
        exists|i: int|
            0 <= i < l.players.len() && (#[trigger] l.players[i]).state != PlayerState::Folded,
        l.players[bring_in_seat(l.players)].wallet >= BRING_IN,
    ensures
        is_bring_in_seat(l.players, bring_in_seat(l.players)),
        l.players[bring_in_seat(l.players)].state != PlayerState::Folded,
        l.after_bring_in().players.len() == l.players.len(),
        l.after_bring_in().players[bring_in_seat(l.players)] == l.players[bring_in_seat(
            l.players,
        )].bet(BRING_IN as int).with_state(PlayerState::Called),
        forall|j: int|
            0 <= j < l.players.len() && j != bring_in_seat(l.players)
                ==> #[trigger] l.after_bring_in().players[j] == l.players[j],
        l.after_bring_in().pot == l.pot + BRING_IN,
        l.after_bring_in().first_betting_player == bring_in_seat(l.players),
{
    lemma_bring_in_seat_exists(l.players);
    let w = choose|i: int|
        0 <= i < l.players.len() && (#[trigger] l.players[i]).state != PlayerState::Folded;
    assert(l.players[w].state != PlayerState::Folded);
}

/// Takes a forced bet of `due` chips from the seat: the bet, or the whole
/// wallet where that is less. A seat whose wallet falls short is all-in.
fn post_forced_bet(lobby: &mut Lobby, seat: usize, due: i32)
    requires
        old(lobby)@.chips_ok(),
        seat < old(lobby)@.players.len(),
        0 <= due,
    ensures
        final(lobby)@ == old(lobby)@.after_forced_bet(seat as int, due as int),
        final(lobby)@.chips_ok(),
        old(lobby)@.seated() ==> final(lobby)@.seated(),
{
    let ghost before = lobby@;
    proof {
        lemma_forced_bet_keeps_chips(before, seat as int, due as int);
        lemma_totals_bound(before.players, seat as int);
    }
    let wallet = lobby.players[seat].wallet;
    let paid = if wallet < due {
        wallet
    } else {
        due
    };
    lobby.players[seat].wallet = wallet - paid;
    lobby.players[seat].current_bet += paid;
    lobby.pot += paid;
    if wallet < due {
        lobby.players[seat].state = PlayerState::AllIn;
    }
    proof {
        assert(lobby@.players =~= before.players.update(
            seat as int,
            before.players[seat as int].post(due as int),
        ));
        assert(lobby@ =~= before.after_forced_bet(seat as int, due as int));
    }
}

/// Posts the blinds: the seat after the first bettor pays the small blind,
/// the next seat the big blind, and the highest bet is the big blind. A
/// seat that pays its blind in full keeps its state; a seat with less pays
/// what it has and is all-in.
pub fn blinds(lobby: &mut Lobby)
    requires
        old(lobby)@.seated(),
        old(lobby)@.chips_ok(),
    ensures
        final(lobby)@ == old(lobby)@.after_blinds(),
        final(lobby)@.seated(),
        final(lobby)@.chips_ok(),
        final(lobby)@.current_max_bet == BIG_BLIND,
        old(lobby)@.no_bet_stands() && old(lobby)@.current_player_count >= 2
            ==> final(lobby)@.bets_capped(),
{
    let ghost before = lobby@;
    let small_blind_player_i = ((lobby.first_betting_player + 1) % lobby.current_player_count) as usize;
    let big_blind_player_i = ((lobby.first_betting_player + 2) % lobby.current_player_count) as usize;
    post_forced_bet(lobby, small_blind_player_i, SMALL_BLIND);
    let ghost mid = lobby@;
    post_forced_bet(lobby, big_blind_player_i, BIG_BLIND);
    lobby.current_max_bet = BIG_BLIND;
    proof {
        let after = lobby@;
        lemma_forced_bet_keeps_chips(before, small_blind_player_i as int, SMALL_BLIND as int);
        lemma_forced_bet_keeps_chips(mid, big_blind_player_i as int, BIG_BLIND as int);
        assert(after =~= before.after_blinds());
        if before.no_bet_stands() && before.current_player_count >= 2 {
            assert(small_blind_player_i != big_blind_player_i) by {
                lemma_blind_seats_differ(before.first_betting_player, before.current_player_count);
            }
            assert forall|j: int| 0 <= j < after.players.len() implies (
            #[trigger] after.players[j]).current_bet <= after.current_max_bet by {
                assert(before.players[j].current_bet == 0);
                if j != big_blind_player_i {
                    assert(after.players[j] == mid.players[j]);
                    if j != small_blind_player_i {
                        assert(mid.players[j] == before.players[j]);
                    }
                } else {
                    assert(mid.players[j] == before.players[j]);
                }
            }
        }
    }
}

/// At a table of two or more seats the blinds are posted by two seats.
proof fn lemma_blind_seats_differ(first: int, n: int)
    requires
        0 <= first < n,
        n >= 2,
    ensures
        (first + 1) % n != (first + 2) % n,
{
    if first + 2 < n {
        vstd::arithmetic::div_mod::lemma_small_mod((first + 1) as nat, n as nat);
        vstd::arithmetic::div_mod::lemma_small_mod((first + 2) as nat, n as nat);
    } else if first + 2 == n {
        vstd::arithmetic::div_mod::lemma_small_mod((first + 1) as nat, n as nat);
        vstd::arithmetic::div_mod::lemma_mod_self_0(n);
    } else {
        vstd::arithmetic::div_mod::lemma_mod_self_0(n);
        assert((first + 2) % n == 1) by (nonlinear_arith)
            requires
                first + 1 == n,
                n >= 2,
        ;
    }
}

/// Place of a suit in the order that breaks ties for the bring-in.
fn suit_order_of(suit: i32) -> (place: i32)
    ensures
        place == suit_order(suit as int),
{
    if suit == 2 {
        0
    } else if suit == 0 {
        1
    } else if suit == 1 {
        2
    } else {
        3
    }
}

/// Takes the bring-in from the seat that shows the lowest up-card, ties
/// broken by the suit order spades, hearts, diamonds, clubs. That seat
/// counts as having called and bets first. A seat with less than the
/// bring-in pays what it has and is all-in.
pub fn bring_in(lobby: &mut Lobby)
    requires
        old(lobby)@.seated(),
        old(lobby)@.chips_ok(),
        forall|i: int|
            0 <= i < old(lobby)@.players.len() && (#[trigger] old(lobby)@.players[i]).state
                != PlayerState::Folded ==> old(lobby)@.players[i].hand.len() >= 3,
    ensures
        final(lobby)@ == old(lobby)@.after_bring_in(),
        final(lobby)@.seated(),
        final(lobby)@.chips_ok(),
        old(lobby)@.bets_capped() ==> final(lobby)@.bets_capped(),
{
    let ghost before = lobby@;
    let n = lobby.players.len();
    let mut lowest_up_card: i32 = 0;
    let mut lowest_up_card_player: usize = 0;
    let mut found = false;
    let mut i: usize = 0;
    while i < n
        invariant
            0 <= i <= n,
            n == before.players.len(),
            n >= 1,
            lobby@ == before,
            forall|j: int|
                0 <= j < n && (#[trigger] before.players[j]).state != PlayerState::Folded
                    ==> before.players[j].hand.len() >= 3,
            !found ==> lowest_up_card_player == 0 && forall|j: int|
                0 <= j < i ==> (#[trigger] before.players[j]).state == PlayerState::Folded,
            found ==> {
                &&& lowest_up_card_player < i
                &&& before.players[lowest_up_card_player as int].state != PlayerState::Folded
                &&& lowest_up_card == up_card_key(before.players[lowest_up_card_player as int].hand[2])
                &&& forall|j: int|
                    0 <= j < i && (#[trigger] before.players[j]).state != PlayerState::Folded
                        ==> lowest_up_card <= up_card_key(before.players[j].hand[2])
                &&& forall|j: int|
                    0 <= j < lowest_up_card_player && (#[trigger] before.players[j]).state
                        != PlayerState::Folded ==> lowest_up_card < up_card_key(
                        before.players[j].hand[2],
                    )
            },
        decreases n - i,
    {
        if lobby.players[i].state != PlayerState::Folded {
            assert(before.players[i as int].state != PlayerState::Folded);
            let up_card = lobby.players[i].hand[2];
            let key = rank_of(up_card) * 4 + suit_order_of(suit_of(up_card));
            if !found || key < lowest_up_card {
                lowest_up_card = key;
                lowest_up_card_player = i;
                found = true;
            }
        }
        i = i + 1;
    }
    let s = lowest_up_card_player;
    proof {
        assert(is_bring_in_seat(before.players, s as int));
        lemma_bring_in_seat_unique(before.players, s as int);
        lemma_totals_bound(before.players, s as int);
    }
    let covered = lobby.players[s].wallet >= BRING_IN;
    post_forced_bet(lobby, s, BRING_IN);
    let ghost paid = lobby@;
    if covered {
        lobby.players[s].state = PlayerState::Called;
    }
    lobby.first_betting_player = s as i32;
    if lobby.players[s].current_bet > lobby.current_max_bet {
        lobby.current_max_bet = lobby.players[s].current_bet;
    }
    proof {
        let after = lobby@;
        lemma_forced_bet_keeps_chips(before, s as int, BRING_IN as int);
        let q = paid.players[s as int];
        assert(after.players =~= paid.players.update(
            s as int,
            if before.players[s as int].wallet < BRING_IN {
                q
            } else {
                q.with_state(PlayerState::Called)
            },
        ));
        assert(after =~= before.after_bring_in());
        lemma_totals_update(paid.players, s as int, after.players[s as int]);
        assert forall|j: int| 0 <= j < after.players.len() implies 0 <= (
        #[trigger] after.players[j]).wallet && 0 <= after.players[j].current_bet by {
            if j != s {
                assert(after.players[j] == paid.players[j]);
            }
        }
        if before.bets_capped() {
            assert forall|j: int| 0 <= j < after.players.len() implies (
            #[trigger] after.players[j]).current_bet <= after.current_max_bet by {
                if j != s {
                    assert(after.players[j] == paid.players[j]);
                    assert(paid.players[j] == before.players[j]);
                }
            }
        }
    }
}

/// Turns the cards of every seat that has not folded face up.
pub fn get_rid_of_x(lobby: &mut Lobby)
    ensures
        final(lobby)@ == old(lobby)@.faces_up(),
        only_hands_differ(old(lobby)@, final(lobby)@),
        forall|i: int|
            0 <= i < old(lobby)@.players.len() ==> (#[trigger] final(lobby)@.players[i]).hand.len()
                == old(lobby)@.players[i].hand.len(),
{
    let ghost before = lobby@;
    let n = lobby.players.len();
    let mut i: usize = 0;
    while i < n
        invariant
            0 <= i <= n,
            n == before.players.len(),
            lobby.players@.len() == n,
            lobby@ == (LobbyView { players: lobby@.players, ..before }),
            forall|j: int| 0 <= j < i ==> lobby@.players[j] == before.faces_up().players[j],
            forall|j: int| i <= j < n ==> lobby@.players[j] == before.players[j],
        decreases n - i,
    {
        if lobby.players[i].state != PlayerState::Folded {
            let mut hand = lobby.players[i].hand.clone();
            let ghost hidden = hand@;
            assert(hidden =~= before.players[i as int].hand);
            let m = hand.len();
            let mut k: usize = 0;
            while k < m
                invariant
                    0 <= k <= m,
                    hand@.len() == m,
                    hidden.len() == m,
                    forall|j: int| 0 <= j < k ==> hand@[j] == face_up(hidden[j]),
                    forall|j: int| k <= j < m ==> hand@[j] == hidden[j],
                decreases m - k,
            {
                if hand[k] > 52 {
                    hand[k] = hand[k] - 53;
                }
                k = k + 1;
            }
            assert(hand@ =~= hidden.map_values(|c: i32| face_up(c)));
            lobby.players[i].hand = hand;
        }
        i = i + 1;
    }
    proof {
        assert(lobby@.players =~= before.faces_up().players);
    }
}

/// Replaces the hand of every seat that has not folded by the best score
/// that five of its seven cards reach, written as six numbers.
pub fn update_players_hand(lobby: &mut Lobby)
    requires
        old(lobby)@.seven_card_hands(),
    ensures
        final(lobby)@ == old(lobby)@.with_best_hands(),
        only_hands_differ(old(lobby)@, final(lobby)@),
        forall|i: int|
            0 <= i < old(lobby)@.players.len() && (#[trigger] final(lobby)@.players[i]).state
                != PlayerState::Folded ==> final(lobby)@.players[i].hand.len() == 6,
{
    let ghost before = lobby@;
    let n = lobby.players.len();
    let texas = lobby.game_type == GameType::TexasHoldEm;
    let mut i: usize = 0;
    while i < n
        invariant
            0 <= i <= n,
            n == before.players.len(),
            lobby.players@.len() == n,
            before.seven_card_hands(),
            texas == (before.game_type == GameType::TexasHoldEm),
            lobby@ == (LobbyView { players: lobby@.players, ..before }),
            forall|j: int| 0 <= j < i ==> lobby@.players[j] == before.with_best_hands().players[j],
            forall|j: int| i <= j < n ==> lobby@.players[j] == before.players[j],
        decreases n - i,
    {
        if lobby.players[i].state != PlayerState::Folded {
            let ghost p = before.players[i as int];
            assert(p.state != PlayerState::Folded);
            let mut player_hand = lobby.players[i].hand.clone();
            assert(player_hand@ =~= p.hand);
            if texas {
                let c = lobby.community_cards.len();
                let mut k: usize = 0;
                while k < c
                    invariant
                        0 <= k <= c,
                        c == before.community_cards.len(),
                        lobby.community_cards@ == before.community_cards,
                        player_hand@ == p.hand + before.community_cards.subrange(0, k as int),
                    decreases c - k,
                {
                    player_hand.push(lobby.community_cards[k]);
                    assert(player_hand@ =~= p.hand + before.community_cards.subrange(0, k + 1));
                    k = k + 1;
                }
                assert(before.community_cards.subrange(0, c as int) =~= before.community_cards);
            }
            assert(player_hand@ == seven_cards(before, p));
            let best_hand = get_best_hand(player_hand.as_slice());
            let mut scored: Vec<i32> = Vec::new();
            scored.push(best_hand.0);
            scored.push(best_hand.1);
            scored.push(best_hand.2);
            scored.push(best_hand.3);
            scored.push(best_hand.4);
            scored.push(best_hand.5);
            assert(scored@ =~= score_as_hand(best_hand));
            lobby.players[i].hand = scored;
        }
        i = i + 1;
    }
    proof {
        assert(lobby@.players =~= before.with_best_hands().players);
    }
}

} // verus!
