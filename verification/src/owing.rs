//! Why a betting phase that runs out of turns leaves every bet matched:
//! every seat that still owes chips gets its turn before the turns run out.

use crate::games::ClientMessage;
use crate::lobby::{is_bet_phase, next_seat, GameState, Lobby, LobbyView};
use crate::player::{PlayerState, PlayerView};
use crate::rounds::StepKind;
use vstd::prelude::*;

verus! {

/// The seat after `c` at a table of `n` seats.
pub open spec fn seat_after(c: int, n: int) -> int {
    if c + 1 < n {
        c + 1
    } else {
        0
    }
}

/// Number of seats from `c` round the table to `s`, `s` not counted.
pub open spec fn seats_between(c: int, s: int, n: int) -> int {
    if s >= c {
        s - c
    } else {
        s - c + n
    }
}

/// Number of turns that are taken before seat `s` gets its turn when seat
/// `c` is on turn: the seats from `c` round the table to `s`, `s` not
/// counted, that have not folded. `fuel` bounds the walk.
pub open spec fn turns_before(players: Seq<PlayerView>, c: int, s: int, fuel: nat) -> int
    decreases fuel,
{
    if fuel == 0 || c == s {
        0
    } else {
        (if players[c].state != PlayerState::Folded {
            1int
        } else {
            0int
        }) + turns_before(players, seat_after(c, players.len() as int), s, (fuel - 1) as nat)
    }
}

impl LobbyView {
    /// The seat owes chips: it can act and its bet is not the highest bet.
    pub open spec fn owes_bet(self, s: int) -> bool {
        self.players[s].can_act() && self.players[s].current_bet != self.current_max_bet
    }

    /// Every seat that owes chips gets its turn while turns are owed.
    pub open spec fn bets_within_turns(self) -> bool {
        forall|s: int|
            0 <= s < self.players.len() && #[trigger] self.owes_bet(s) ==> self.on_turn().state
                != PlayerState::Folded && turns_before(
                self.players,
                self.current_player_index,
                s,
                self.players.len(),
            ) < self.turns_remaining
    }
}

proof fn lemma_seat_after(c: int, n: int)
    requires
        0 <= c < n,
    ensures
        (c + 1) % n == seat_after(c, n),
{
    if c + 1 < n {
        vstd::arithmetic::div_mod::lemma_small_mod((c + 1) as nat, n as nat);
    } else {
        vstd::arithmetic::div_mod::lemma_mod_self_0(n);
    }
}

/// The walk to a seat needs only as much fuel as there are seats on the
/// way, and counts at most that many turns.
proof fn lemma_turns_before_fuel(players: Seq<PlayerView>, c: int, s: int, f1: nat, f2: nat)
    requires
        0 <= c < players.len(),
        0 <= s < players.len(),
        f1 >= seats_between(c, s, players.len() as int),
        f2 >= seats_between(c, s, players.len() as int),
    ensures
        turns_before(players, c, s, f1) == turns_before(players, c, s, f2),
        0 <= turns_before(players, c, s, f1) <= seats_between(c, s, players.len() as int),
    decreases seats_between(c, s, players.len() as int),
{
    if c != s {
        lemma_turns_before_fuel(
            players,
            seat_after(c, players.len() as int),
            s,
            (f1 - 1) as nat,
            (f2 - 1) as nat,
        );
    }
}

/// The walk to a seat does not depend on a seat that is not on the way.
proof fn lemma_turns_before_elsewhere(
    a: Seq<PlayerView>,
    b: Seq<PlayerView>,
    start: int,
    s: int,
    c: int,
    fuel: nat,
)
    requires
        a.len() == b.len(),
        0 <= start < a.len(),
        0 <= s < a.len(),
        0 <= c < a.len(),
        forall|i: int| 0 <= i < a.len() && i != c ==> (#[trigger] a[i]).state == b[i].state,
        seats_between(start, c, a.len() as int) >= seats_between(start, s, a.len() as int),
    ensures
        turns_before(a, start, s, fuel) == turns_before(b, start, s, fuel),
    decreases fuel,
{
    if fuel != 0 && start != s {
        assert(start != c);
        lemma_turns_before_elsewhere(
            a,
            b,
            seat_after(start, a.len() as int),
            s,
            c,
            (fuel - 1) as nat,
        );
    }
}

/// The cursor, going round from `start`, stops at the first seat that has
/// not folded; the seats it passes over take no turn.
proof fn lemma_cursor_walk(players: Seq<PlayerView>, start: int, tries: nat, s: int)
    requires
        0 <= start < players.len(),
        0 <= s < players.len(),
        players[s].state != PlayerState::Folded,
        seats_between(start, s, players.len() as int) < tries <= players.len(),
    ensures
        0 <= next_seat(players, start, tries, true) < players.len(),
        players[next_seat(players, start, tries, true)].state != PlayerState::Folded,
        turns_before(players, next_seat(players, start, tries, true), s, players.len())
            == turns_before(players, start, s, players.len()),
    decreases tries,
{
    let n = players.len() as int;
    if players[start].skipped(true) {
        assert(start != s);
        lemma_seat_after(start, n);
        let next = seat_after(start, n);
        lemma_cursor_walk(players, next, (tries - 1) as nat, s);
        lemma_turns_before_fuel(players, next, s, (n - 1) as nat, n as nat);
    }
}

/// When a betting phase starts from the first bettor with every seat owing
/// a turn, every seat that owes chips gets its turn while turns are owed.
pub proof fn lemma_bets_within_turns_after_reset(l: LobbyView)
    requires
        l.seated(),
        is_bet_phase(l.game_state),
        l.turns_remaining == l.current_player_count,
    ensures
        l.advance_turn(true).bets_within_turns(),
{
    let e = l.advance_turn(true);
    let n = l.players.len();
    assert forall|s: int| 0 <= s < e.players.len() && #[trigger] e.owes_bet(s) implies e.on_turn().state
        != PlayerState::Folded && turns_before(e.players, e.current_player_index, s, e.players.len())
        < e.turns_remaining by {
        lemma_cursor_walk(l.players, l.first_betting_player, n, s);
        lemma_turns_before_fuel(l.players, e.current_player_index, s, n, n);
    }
}

/// The seat that made its move owes no chips.
proof fn lemma_mover_is_settled(l: LobbyView, input: Option<ClientMessage>)
    requires
        l.seated(),
        l.bet_outcome(input) == StepKind::Advanced,
    ensures
        !l.after_move(input).owes_bet(l.current_player_index),
        l.after_move(input).players.len() == l.players.len(),
        forall|i: int|
            0 <= i < l.players.len() && i != l.current_player_index
                ==> #[trigger] l.after_move(input).players[i] == l.players[i],
        l.after_move(input).current_player_index == l.current_player_index,
        l.after_move(input).current_player_count == l.current_player_count,
        l.after_move(input).turns_remaining == l.current_player_count
            || (l.after_move(input).turns_remaining == l.turns_remaining
            && l.after_move(input).current_max_bet
            == l.current_max_bet),
{
}

/// When the last turn that was owed in a betting phase is taken, every seat
/// that has neither folded nor gone all-in has matched the highest bet.
pub proof fn lemma_bets_settled_when_turns_run_out(l: LobbyView, input: Option<ClientMessage>)
    requires
        l.seated(),
        l.bets_within_turns(),
        l.bet_outcome(input) == StepKind::Advanced,
        l.after_move(input).turns_remaining == 1,
    ensures
        forall|s: int|
            0 <= s < l.players.len() && (#[trigger] l.after_move(input).players[s]).can_act()
                ==> l.after_move(input).players[s].current_bet == l.after_move(input).current_max_bet,
{
    let a = l.after_move(input);
    let c = l.current_player_index;
    let n = l.players.len();
    lemma_mover_is_settled(l, input);
    assert forall|s: int| 0 <= s < l.players.len()
        && (#[trigger] a.players[s]).can_act() implies a.players[s].current_bet
        == a.current_max_bet by {
        if a.owes_bet(s) {
            assert(s != c);
            assert(a.players[s] == l.players[s]);
            if a.turns_remaining == l.turns_remaining && a.current_max_bet == l.current_max_bet {
                assert(l.owes_bet(s));
                lemma_turns_before_fuel(l.players, seat_after(c, n as int), s, (n - 1) as nat, n);
                assert(turns_before(l.players, c, s, n) >= 1);
            } else {
                assert(n == 1);
            }
        }
    }
}

/// The same of every lobby that a step of a round admits: when a betting
/// phase ends because the last turn owed in it is taken, then at that
/// moment, before the bets are cleared, every seat that has neither folded
/// nor gone all-in has matched the highest bet, and no seat has bet more
/// than the highest bet.
pub proof fn lemma_betting_phase_ends_settled(
    l: LobbyView,
    input: Option<ClientMessage>,
    next: GameState,
    bump: int,
)
    requires
        l.round_ok(),
        is_bet_phase(l.game_state),
        l.bet_outcome(input) == StepKind::Advanced,
        l.after_move(input).turns_remaining == 1,
    ensures
        l.after_bet_turn(input, next, bump) == l.after_move(input).end_bet_turn(next, bump),
        forall|s: int|
            0 <= s < l.players.len() && (#[trigger] l.after_move(input).players[s]).can_act()
                ==> l.after_move(input).players[s].current_bet == l.after_move(input).current_max_bet,
        l.after_move(input).bets_capped(),
        l.after_move(input).chips_ok(),
{
    lemma_bets_settled_when_turns_run_out(l, input);
    let a = l.after_move(input);
    if l.on_turn().can_act() {
        match input {
            Some(m) => {
                if m is Disconnect {
                    assert forall|j: int| 0 <= j < a.players.len() implies (
                    #[trigger] a.players[j]).current_bet <= a.current_max_bet by {
                        if j != l.current_player_index {
                            assert(a.players[j] == l.players[j]);
                        }
                    }
                    crate::lobby::lemma_totals_update(
                        l.players,
                        l.current_player_index,
                        a.players[l.current_player_index],
                    );
                    assert forall|j: int| 0 <= j < a.players.len() implies 0 <= (
                    #[trigger] a.players[j]).wallet && 0 <= a.players[j].current_bet by {
                        if j != l.current_player_index {
                            assert(a.players[j] == l.players[j]);
                        }
                    }
                } else {
                    crate::games::lemma_bet_keeps_chips(l, m);
                    let b = l.after_bet(m);
                    assert(a.players == b.players);
                    assert(a.current_max_bet == b.current_max_bet);
                    assert(a.pot == b.pot);
                }
            },
            None => {},
        }
    }
}

/// While a betting phase goes on, every seat that owes chips still gets its
/// turn before the turns run out.
pub proof fn lemma_bets_stay_within_turns(
    l: LobbyView,
    input: Option<ClientMessage>,
    next: GameState,
    bump: int,
)
    requires
        l.seated(),
        is_bet_phase(l.game_state),
        l.bets_within_turns(),
        l.bet_outcome(input) == StepKind::Advanced,
        l.after_bet_turn(input, next, bump).game_state == l.game_state,
        next != l.game_state,
    ensures
        l.after_bet_turn(input, next, bump).bets_within_turns(),
{
    let a = l.after_move(input);
    let e = l.after_bet_turn(input, next, bump);
    let c = l.current_player_index;
    let n = l.players.len();
    lemma_mover_is_settled(l, input);
    lemma_seat_after(c, n as int);
    let start = seat_after(c, n as int);
    assert(e == a.turn_taken().advance_turn(false));
    assert(e.players == a.players);
    assert(e.current_player_index == next_seat(a.players, start, n, true));
    assert forall|s: int| 0 <= s < e.players.len() && #[trigger] e.owes_bet(s) implies e.on_turn().state
        != PlayerState::Folded && turns_before(e.players, e.current_player_index, s, e.players.len())
        < e.turns_remaining by {
        assert(a.owes_bet(s));
        assert(s != c);
        assert(a.players[s] == l.players[s]);
        lemma_cursor_walk(a.players, start, n, s);
        lemma_turns_before_fuel(a.players, start, s, (n - 1) as nat, n);
        if a.turns_remaining == l.turns_remaining && a.current_max_bet == l.current_max_bet {
            assert(l.owes_bet(s));
            lemma_turns_before_elsewhere(l.players, a.players, start, s, c, (n - 1) as nat);
            assert(turns_before(l.players, c, s, n) == 1 + turns_before(
                l.players,
                start,
                s,
                (n - 1) as nat,
            ));
        }
    }
}

/// The seat after `s` gets its turn after `s` has had its own.
proof fn lemma_turns_before_next(players: Seq<PlayerView>, c: int, s: int, fuel: nat)
    requires
        0 <= c < players.len(),
        0 <= s < players.len(),
        seats_between(c, s, players.len() as int) + 1 < players.len(),
        fuel > seats_between(c, s, players.len() as int),
    ensures
        turns_before(players, c, seat_after(s, players.len() as int), fuel) == turns_before(
            players,
            c,
            s,
            fuel,
        ) + if players[s].state != PlayerState::Folded {
            1int
        } else {
            0int
        },
    decreases seats_between(c, s, players.len() as int),
{
    let n = players.len() as int;
    if c != s {
        lemma_turns_before_next(players, seat_after(c, n), s, (fuel - 1) as nat);
    } else {
        assert(turns_before(players, seat_after(c, n), seat_after(c, n), (fuel - 1) as nat) == 0);
    }
}

impl Lobby {
    /// Whether every seat that owes chips gets its turn while turns are
    /// owed.
    pub fn bets_fit_turns(&self) -> (ok: bool)
        requires
            self@.seated(),
        ensures
            ok == self@.bets_within_turns(),
    {
        let n = self.players.len();
        let c = self.current_player_index as usize;
        let cursor_live = self.players[c].state != PlayerState::Folded;
        let mut seat: usize = c;
        let mut before: i32 = 0;
        let mut k: usize = 0;
        while k < n
            invariant
                0 <= k <= n,
                n == self@.players.len(),
                n <= 10,
                c == self@.current_player_index,
                0 <= c < n,
                0 <= seat < n,
                cursor_live == (self@.on_turn().state != PlayerState::Folded),
                0 <= before <= k,
                k < n ==> seats_between(c as int, seat as int, n as int) == k && before
                    == turns_before(self@.players, c as int, seat as int, n as nat),
                forall|s: int|
                    0 <= s < n && seats_between(c as int, s, n as int) < k && #[trigger] self@.owes_bet(
                        s,
                    ) ==> cursor_live && turns_before(self@.players, c as int, s, n as nat)
                        < self@.turns_remaining,
            decreases n - k,
        {
            let p = &self.players[seat];
            let owes = p.state != PlayerState::Folded && p.state != PlayerState::AllIn
                && p.current_bet != self.current_max_bet;
            if owes && !(cursor_live && before < self.turns_remaining) {
                assert(self@.owes_bet(seat as int));
                return false;
            }
            proof {
                if k + 1 < n {
                    lemma_turns_before_next(self@.players, c as int, seat as int, n as nat);
                }
                assert forall|s: int|
                    0 <= s < n && seats_between(c as int, s, n as int) < k + 1
                        && #[trigger] self@.owes_bet(s) implies cursor_live && turns_before(
                    self@.players,
                    c as int,
                    s,
                    n as nat,
                ) < self@.turns_remaining by {
                    if seats_between(c as int, s, n as int) == k {
                        assert(s == seat);
                    }
                }
            }
            if p.state != PlayerState::Folded {
                before = before + 1;
            }
            seat = if seat + 1 < n {
                seat + 1
            } else {
                0
            };
            k = k + 1;
        }
        assert forall|s: int| 0 <= s < n && #[trigger] self@.owes_bet(s) implies cursor_live
            && turns_before(self@.players, c as int, s, n as nat) < self@.turns_remaining by {
            assert(seats_between(c as int, s, n as int) < n);
        }
        true
    }
}

} // verus!
