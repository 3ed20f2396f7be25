//! The showdown: who wins the pot, and what each winner gets.

use crate::hand::{get_hand_type, score5, score_gt, score_le, HandScore};
use crate::lobby::{
    lemma_totals_bound, lemma_totals_update, total_bets, total_wallets, GameType, Lobby, LobbyView,
};
use crate::player::{seats, PlayerState, PlayerView};
use vstd::prelude::*;

verus! {

/// What a seat's hand counts at the showdown: in Five Card Draw the score of
/// its five cards, in the seven-card games the six numbers that its hand
/// was replaced by.
pub open spec fn seat_score(game_type: GameType, p: PlayerView) -> HandScore {
    if game_type == GameType::FiveCardDraw {
        score5(p.hand)
    } else {
        (p.hand[0], p.hand[1], p.hand[2], p.hand[3], p.hand[4], p.hand[5])
    }
}

/// The seat's hand can be scored: five cards in Five Card Draw, six numbers
/// in the seven-card games.
pub open spec fn scorable(game_type: GameType, p: PlayerView) -> bool {
    p.hand.len() == if game_type == GameType::FiveCardDraw {
        5int
    } else {
        6int
    }
}

/// Number of seats among the first `upto` that have not folded.
pub open spec fn live_upto(players: Seq<PlayerView>, upto: int) -> int
    decreases upto,
{
    if upto <= 0 {
        0
    } else {
        live_upto(players, upto - 1) + if players[upto - 1].state != PlayerState::Folded {
            1int
        } else {
            0int
        }
    }
}

/// Number of seats that have not folded.
pub open spec fn live_count(players: Seq<PlayerView>) -> int {
    live_upto(players, players.len() as int)
}

/// `s` is the highest score among the seats that have not folded.
pub open spec fn is_top_score(players: Seq<PlayerView>, game_type: GameType, s: HandScore) -> bool {
    &&& exists|i: int|
        0 <= i < players.len() && (#[trigger] players[i]).state != PlayerState::Folded
            && seat_score(game_type, players[i]) == s
    &&& forall|i: int|
        0 <= i < players.len() && (#[trigger] players[i]).state != PlayerState::Folded ==> score_le(
            seat_score(game_type, players[i]),
            s,
        )
}

/// The highest score among the seats that have not folded.
pub open spec fn top_score(players: Seq<PlayerView>, game_type: GameType) -> HandScore {
    choose|s: HandScore| is_top_score(players, game_type, s)
}

/// Seat `i` wins: it has not folded, and it is the only such seat or its
/// score ties the highest.
pub open spec fn wins(players: Seq<PlayerView>, game_type: GameType, i: int) -> bool {
    players[i].state != PlayerState::Folded && (live_count(players) == 1 || seat_score(
        game_type,
        players[i],
    ) == top_score(players, game_type))
}

/// Number of winners among the first `upto` seats.
pub open spec fn winner_count(players: Seq<PlayerView>, game_type: GameType, upto: int) -> int
    decreases upto,
{
    if upto <= 0 {
        0
    } else {
        winner_count(players, game_type, upto - 1) + if wins(players, game_type, upto - 1) {
            1int
        } else {
            0int
        }
    }
}

/// A winner after taking a share of the pot.
pub open spec fn paid(p: PlayerView, share: int) -> PlayerView {
    PlayerView { wallet: p.wallet + share, games_won: p.games_won + 1, ..p }
}

impl LobbyView {
    /// Where two or more seats have not folded, each of them has a hand
    /// that can be scored.
    pub open spec fn showdown_ready(self) -> bool {
        live_count(self.players) >= 2 ==> forall|i: int|
            0 <= i < self.players.len() && (#[trigger] self.players[i]).state
                != PlayerState::Folded ==> scorable(self.game_type, self.players[i])
    }

    /// Number of winners.
    pub open spec fn winners(self) -> int {
        winner_count(self.players, self.game_type, self.players.len() as int)
    }

    /// What each winner gets: the pot divided by the number of winners,
    /// rounded down.
    pub open spec fn showdown_share(self) -> int {
        if self.winners() == 0 {
            0
        } else {
            self.pot / self.winners()
        }
    }

    /// The lobby after the showdown: every winner has its share in the
    /// wallet and one more game won; what cannot be divided stays in the
    /// pot.
    pub open spec fn after_showdown(self) -> LobbyView {
        let share = self.showdown_share();
        LobbyView {
            players: Seq::new(
                self.players.len(),
                |i: int|
                    if wins(self.players, self.game_type, i) {
                        paid(self.players[i], share)
                    } else {
                        self.players[i]
                    },
            ),
            pot: self.pot - share * self.winners(),
            ..self
        }
    }
}

/// The seats that have not folded have only one highest score.
pub proof fn lemma_top_score_unique(players: Seq<PlayerView>, game_type: GameType, s: HandScore)
    requires
        is_top_score(players, game_type, s),
    ensures
        top_score(players, game_type) == s,
{
    let t = top_score(players, game_type);
    assert(is_top_score(players, game_type, t));
    let i = choose|i: int|
        0 <= i < players.len() && (#[trigger] players[i]).state != PlayerState::Folded
            && seat_score(game_type, players[i]) == s;
    let j = choose|j: int|
        0 <= j < players.len() && (#[trigger] players[j]).state != PlayerState::Folded
            && seat_score(game_type, players[j]) == t;
    assert(score_le(seat_score(game_type, players[i]), t));
    assert(score_le(seat_score(game_type, players[j]), s));
}

/// Among the first `k` seats, one that has not folded has the highest
/// score, unless all of them have folded.
proof fn lemma_highest_score(players: Seq<PlayerView>, game_type: GameType, k: int) -> (r: (
    bool,
    int,
))
    requires
        0 <= k <= players.len(),
    ensures
        !r.0 ==> forall|j: int| 0 <= j < k ==> (#[trigger] players[j]).state == PlayerState::Folded,
        r.0 ==> {
            &&& 0 <= r.1 < k
            &&& players[r.1].state != PlayerState::Folded
            &&& forall|j: int|
                0 <= j < k && (#[trigger] players[j]).state != PlayerState::Folded ==> score_le(
                    seat_score(game_type, players[j]),
                    seat_score(game_type, players[r.1]),
                )
        },
    decreases k,
{
    if k == 0 {
        (false, 0)
    } else {
        let prev = lemma_highest_score(players, game_type, k - 1);
        if players[k - 1].state == PlayerState::Folded {
            prev
        } else if !prev.0 || crate::hand::score_lt(
            seat_score(game_type, players[prev.1]),
            seat_score(game_type, players[k - 1]),
        ) {
            (true, k - 1)
        } else {
            prev
        }
    }
}

/// Where a seat has not folded, the seats that have not folded have a
/// highest score.
pub proof fn lemma_top_score_exists(players: Seq<PlayerView>, game_type: GameType)
    requires
        live_count(players) >= 1,
    ensures
        is_top_score(players, game_type, top_score(players, game_type)),
{
    let r = lemma_highest_score(players, game_type, players.len() as int);
    if r.0 {
        assert(is_top_score(players, game_type, seat_score(game_type, players[r.1])));
    } else {
        lemma_none_live(players, players.len() as int);
    }
}

/// Where every seat has folded, no seat is counted as not folded.
proof fn lemma_none_live(players: Seq<PlayerView>, upto: int)
    requires
        0 <= upto <= players.len(),
        forall|j: int| 0 <= j < upto ==> (#[trigger] players[j]).state == PlayerState::Folded,
    ensures
        live_upto(players, upto) == 0,
    decreases upto,
{
    if upto > 0 {
        lemma_none_live(players, upto - 1);
    }
}

/// The number of winners grows with the seats counted, and a winner among
/// them is counted.
proof fn lemma_winner_count(players: Seq<PlayerView>, game_type: GameType, a: int, b: int)
    requires
        0 <= a <= b,
    ensures
        0 <= winner_count(players, game_type, a) <= winner_count(players, game_type, b),
        winner_count(players, game_type, b) <= b,
        forall|i: int| a <= i < b && wins(players, game_type, i)
            ==> winner_count(players, game_type, a) < winner_count(players, game_type, b),
    decreases b,
{
    if b > 0 {
        if a < b {
            lemma_winner_count(players, game_type, a, b - 1);
        } else {
            lemma_winner_count(players, game_type, 0, b - 1);
        }
        lemma_winner_count(players, game_type, 0, b - 1);
    }
}

/// The number of seats that have not folded is bounded by the seats counted.
pub proof fn lemma_live_upto(players: Seq<PlayerView>, a: int, b: int)
    requires
        0 <= a <= b,
    ensures
        0 <= live_upto(players, a) <= live_upto(players, b) <= b,
        forall|i: int|
            a <= i < b && (#[trigger] players[i]).state != PlayerState::Folded ==> live_upto(players, a)
                < live_upto(players, b),
    decreases b,
{
    if b > 0 {
        if a < b {
            lemma_live_upto(players, a, b - 1);
        }
        lemma_live_upto(players, 0, b - 1);
    }
}

/// Number of seats that have not folded.
pub fn live_seats(lobby: &Lobby) -> (live: usize)
    ensures
        live == live_count(lobby@.players),
{
    let n = lobby.players.len();
    let mut live: usize = 0;
    let mut k: usize = 0;
    while k < n
        invariant
            0 <= k <= n,
            n == lobby@.players.len(),
            live == live_upto(lobby@.players, k as int),
            live <= k,
        decreases n - k,
    {
        if lobby.players[k].state != PlayerState::Folded {
            live = live + 1;
        }
        k = k + 1;
    }
    live
}

/// Whether two scores are the same.
fn score_eq(a: HandScore, b: HandScore) -> (same: bool)
    ensures
        same == (a == b),
{
    a.0 == b.0 && a.1 == b.1 && a.2 == b.2 && a.3 == b.3 && a.4 == b.4 && a.5 == b.5
}

/// Resolves the hand: the seats that have not folded and whose score ties
/// the highest share the pot equally, rounded down, and each has won one
/// more game. A seat that is the only one left wins without being scored.
/// What cannot be divided stays in the pot.
pub fn showdown(lobby: &mut Lobby)
    requires
        old(lobby)@.wf(),
        old(lobby)@.chips_ok(),
        old(lobby)@.wins_fit(),
        old(lobby)@.showdown_ready(),
    ensures
        final(lobby)@ == old(lobby)@.after_showdown(),
        total_bets(old(lobby)@.players) == 0 ==> final(lobby)@.chips_ok(),
        old(lobby)@.seated() ==> final(lobby)@.seated(),
        old(lobby)@.bets_capped() ==> final(lobby)@.bets_capped(),
        final(lobby)@.wf(),
{
    let ghost before = lobby@;
    let ghost gt = before.game_type;
    let n = lobby.players.len();
    let five_card = lobby.game_type == GameType::FiveCardDraw;

    let mut live: usize = 0;
    let ghost mut live_seat: int = 0;
    let mut k: usize = 0;
    while k < n
        invariant
            0 <= k <= n,
            n == before.players.len(),
            lobby@ == before,
            live == live_upto(before.players, k as int),
            live <= k,
            live > 0 ==> 0 <= live_seat < k && before.players[live_seat].state != PlayerState::Folded,
        decreases n - k,
    {
        if lobby.players[k].state != PlayerState::Folded {
            live = live + 1;
            proof {
                live_seat = k as int;
            }
        }
        k = k + 1;
    }
    assert(live == live_count(before.players));
    if live == 0 {
        proof {
            assert forall|i: int| 0 <= i < n implies !wins(before.players, gt, i) by {
                lemma_live_upto(before.players, 0, n as int);
            }
            lemma_no_winners(before.players, gt, n as int);
            assert(lobby@ =~= before.after_showdown());
        }
        return ;
    }
    let mut scores: Vec<HandScore> = Vec::new();
    let mut k: usize = 0;
    while k < n
        invariant
            0 <= k <= n,
            n == before.players.len(),
            lobby@ == before,
            gt == before.game_type,
            five_card == (gt == GameType::FiveCardDraw),
            live == live_count(before.players),
            before.showdown_ready(),
            scores@.len() == k,
            forall|j: int|
                0 <= j < k && live >= 2 && (#[trigger] before.players[j]).state != PlayerState::Folded
                    ==> scores@[j] == seat_score(gt, before.players[j]),
        decreases n - k,
    {
        if live >= 2 && lobby.players[k].state != PlayerState::Folded {
            assert(scorable(gt, before.players[k as int]));
            if five_card {
                let s = get_hand_type(lobby.players[k].hand.as_slice());
                scores.push(s);
            } else {
                let h = &lobby.players[k].hand;
                scores.push((h[0], h[1], h[2], h[3], h[4], h[5]));
            }
        } else {
            scores.push((0, 0, 0, 0, 0, 0));
        }
        k = k + 1;
    }
    let mut best: HandScore = (0, 0, 0, 0, 0, 0);
    if live >= 2 {
        let mut found = false;
        let ghost mut best_seat: int = 0;
        let mut k: usize = 0;
        while k < n
            invariant
                0 <= k <= n,
                n == before.players.len(),
                lobby@ == before,
                scores@.len() == n,
                live >= 2,
                forall|j: int|
                    0 <= j < n && (#[trigger] before.players[j]).state != PlayerState::Folded
                        ==> scores@[j] == seat_score(gt, before.players[j]),
                !found ==> forall|j: int|
                    0 <= j < k ==> (#[trigger] before.players[j]).state == PlayerState::Folded,
                found ==> {
                    &&& 0 <= best_seat < k
                    &&& before.players[best_seat].state != PlayerState::Folded
                    &&& best == seat_score(gt, before.players[best_seat])
                    &&& forall|j: int|
                        0 <= j < k && (#[trigger] before.players[j]).state != PlayerState::Folded
                            ==> score_le(seat_score(gt, before.players[j]), best)
                },
            decreases n - k,
        {
            if lobby.players[k].state != PlayerState::Folded {
                assert(before.players[k as int].state != PlayerState::Folded);
                if !found || score_gt(scores[k], best) {
                    best = scores[k];
                    found = true;
                    proof {
                        best_seat = k as int;
                    }
                }
            }
            k = k + 1;
        }
        proof {
            assert(before.players[live_seat].state != PlayerState::Folded);
            assert(found);
            assert(is_top_score(before.players, gt, best));
            lemma_top_score_unique(before.players, gt, best);
            assert(wins(before.players, gt, best_seat));
            lemma_winner_count(before.players, gt, 0, n as int);
        }
    } else {
        proof {
            assert(wins(before.players, gt, live_seat));
            lemma_winner_count(before.players, gt, 0, n as int);
        }
    }
    let mut winners: usize = 0;
    let mut k: usize = 0;
    while k < n
        invariant
            0 <= k <= n,
            n == before.players.len(),
            lobby@ == before,
            scores@.len() == n,
            live == live_count(before.players),
            live >= 1,
            live >= 2 ==> best == top_score(before.players, gt) && forall|j: int|
                0 <= j < n && (#[trigger] before.players[j]).state != PlayerState::Folded
                    ==> scores@[j] == seat_score(gt, before.players[j]),
            winners == winner_count(before.players, gt, k as int),
            winners <= k,
        decreases n - k,
    {
        if lobby.players[k].state != PlayerState::Folded && (live == 1 || score_eq(scores[k], best)) {
            winners = winners + 1;
        }
        k = k + 1;
    }
    assert(winners == before.winners());
    assert(winners >= 1);
    let share: i32 = lobby.pot / (winners as i32);
    proof {
        assert(share == before.showdown_share());
        assert(0 <= share * winners <= before.pot) by (nonlinear_arith)
            requires
                share == before.pot / (winners as int),
                winners >= 1,
                before.pot >= 0,
        ;
        assert(0 <= share);
    }
    let mut k: usize = 0;
    while k < n
        invariant
            0 <= k <= n,
            n == before.players.len(),
            lobby.players@.len() == n,
            scores@.len() == n,
            before.chips_ok(),
            before.wins_fit(),
            live == live_count(before.players),
            live >= 1,
            live >= 2 ==> best == top_score(before.players, gt) && forall|j: int|
                0 <= j < n && (#[trigger] before.players[j]).state != PlayerState::Folded
                    ==> scores@[j] == seat_score(gt, before.players[j]),
            winners == before.winners(),
            gt == before.game_type,
            0 <= share,
            share == before.showdown_share(),
            share * winners <= before.pot,
            lobby@ == (LobbyView { players: lobby@.players, ..before }),
            forall|j: int| 0 <= j < k ==> lobby@.players[j] == before.after_showdown().players[j],
            forall|j: int| k <= j < n ==> lobby@.players[j] == before.players[j],
            forall|j: int|
                0 <= j < n ==> 0 <= (#[trigger] lobby@.players[j]).wallet && 0
                    <= lobby@.players[j].current_bet,
            total_wallets(lobby@.players) == total_wallets(before.players) + share * winner_count(
                before.players,
                gt,
                k as int,
            ),
            total_bets(lobby@.players) == total_bets(before.players),
        decreases n - k,
    {
        if lobby.players[k].state != PlayerState::Folded && (live == 1 || score_eq(scores[k], best)) {
            let ghost cur = lobby@.players;
            proof {
                assert(wins(before.players, gt, k as int));
                lemma_winner_count(before.players, gt, k as int + 1, n as int);
                lemma_totals_bound(cur, k as int);
                let c = winner_count(before.players, gt, k as int);
                assert(winner_count(before.players, gt, k as int + 1) == c + 1);
                assert(share * (c + 1) <= share * winners) by (nonlinear_arith)
                    requires
                        c + 1 <= winners,
                        0 <= share,
                ;
                assert(share * (c + 1) == share * c + share) by (nonlinear_arith);
            }
            lobby.players[k].wallet += share;
            lobby.players[k].games_won += 1;
            proof {
                assert(lobby@.players =~= cur.update(k as int, paid(before.players[k as int],
                    share as int)));
                lemma_totals_update(cur, k as int, lobby@.players[k as int]);
                assert(before.after_showdown().players[k as int] == paid(
                    before.players[k as int],
                    share as int,
                ));
            }
        } else {
            proof {
                assert(!wins(before.players, gt, k as int));
                assert(before.after_showdown().players[k as int] == before.players[k as int]);
                assert(winner_count(before.players, gt, k as int + 1) == winner_count(
                    before.players,
                    gt,
                    k as int,
                ));
            }
        }
        k = k + 1;
    }
    lobby.pot = lobby.pot - share * (winners as i32);
    proof {
        assert(lobby@.players =~= before.after_showdown().players);
        assert(lobby@ =~= before.after_showdown());
    }
}

/// Where no seat wins, no winner is counted.
proof fn lemma_no_winners(players: Seq<PlayerView>, game_type: GameType, upto: int)
    requires
        0 <= upto <= players.len(),
        forall|i: int| 0 <= i < upto ==> !wins(players, game_type, i),
    ensures
        winner_count(players, game_type, upto) == 0,
    decreases upto,
{
    if upto > 0 {
        lemma_no_winners(players, game_type, upto - 1);
    }
}

/// Seats that agree on their states have the same number of seats that have
/// not folded.
pub proof fn lemma_live_same(a: Seq<PlayerView>, b: Seq<PlayerView>, upto: int)
    requires
        0 <= upto <= a.len(),
        a.len() == b.len(),
        forall|i: int| 0 <= i < a.len() ==> (#[trigger] a[i]).state == b[i].state,
    ensures
        live_upto(a, upto) == live_upto(b, upto),
    decreases upto,
{
    if upto > 0 {
        lemma_live_same(a, b, upto - 1);
    }
}

/// Clearing the bets changes nothing about who can be scored.
pub proof fn lemma_showdown_ready_without_bets(l: LobbyView)
    requires
        l.showdown_ready(),
    ensures
        l.without_bets().showdown_ready(),
{
    let c = l.without_bets();
    lemma_live_same(l.players, c.players, l.players.len() as int);
    if live_count(c.players) >= 2 {
        assert forall|i: int|
            0 <= i < c.players.len() && (#[trigger] c.players[i]).state
                != PlayerState::Folded implies scorable(c.game_type, c.players[i]) by {
            assert(l.players[i].state != PlayerState::Folded);
            assert(scorable(l.game_type, l.players[i]));
        }
    }
}

} // verus!
