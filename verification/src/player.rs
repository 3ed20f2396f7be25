//! A player as the lobby sees it: identity, cards, chips and status.

use vstd::prelude::*;

verus! {

/// Wallet of a newly registered player.
pub const INITIAL_WALLET: i32 = 1000;

/// Where a player stands, in the server and within a hand.
#[derive(Clone, Copy, Debug, PartialEq, Eq, Structural)]
pub enum PlayerState {
    Ready,
    Folded,
    AllIn,
    Checked,
    Called,
    Raised,
    InLobby,
    InServer,
    InGame,
    LoggingIn,
    Spectator,
}

/// One connected player.
#[derive(Debug)]
pub struct Player {
    pub name: String,
    pub id: String,
    pub hand: Vec<i32>,
    pub wallet: i32,
    pub state: PlayerState,
    pub current_bet: i32,
    pub ready: bool,
    pub games_played: i32,
    pub games_won: i32,
    pub disconnected: bool,
}

/// Mathematical model of a player.
#[verifier::ext_equal]
pub struct PlayerView {
    pub name: Seq<char>,
    pub id: Seq<char>,
    pub hand: Seq<i32>,
    pub wallet: int,
    pub state: PlayerState,
    pub current_bet: int,
    pub ready: bool,
    pub games_played: int,
    pub games_won: int,
    pub disconnected: bool,
}

impl View for Player {
    type V = PlayerView;

    open spec fn view(&self) -> PlayerView {
        PlayerView {
            name: self.name@,
            id: self.id@,
            hand: self.hand@,
            wallet: self.wallet as int,
            state: self.state,
            current_bet: self.current_bet as int,
            ready: self.ready,
            games_played: self.games_played as int,
            games_won: self.games_won as int,
            disconnected: self.disconnected,
        }
    }
}

impl PlayerView {
    /// The player with another state.
    pub open spec fn with_state(self, state: PlayerState) -> PlayerView {
        PlayerView { state, ..self }
    }

    /// The player with another readiness.
    pub open spec fn with_ready(self, ready: bool) -> PlayerView {
        PlayerView { ready, ..self }
    }

    /// The player with another hand.
    pub open spec fn with_hand(self, hand: Seq<i32>) -> PlayerView {
        PlayerView { hand, ..self }
    }

    /// The player with another wallet and other game counters.
    pub open spec fn with_stats(self, wallet: int, games_played: int, games_won: int) -> PlayerView {
        PlayerView { wallet, games_played, games_won, ..self }
    }

    /// The player in the given state with an empty hand.
    pub open spec fn cleared(self, state: PlayerState) -> PlayerView {
        PlayerView { state, hand: Seq::empty(), ..self }
    }

    /// The player with no bet standing.
    pub open spec fn without_bet(self) -> PlayerView {
        PlayerView { current_bet: 0, ..self }
    }

    /// The player after the game counters were written to the store.
    pub open spec fn flushed(self) -> PlayerView {
        PlayerView { games_played: 0, games_won: 0, ..self }
    }

    /// The player after moving `amount` chips from the wallet into the
    /// current bet.
    pub open spec fn bet(self, amount: int) -> PlayerView {
        PlayerView { wallet: self.wallet - amount, current_bet: self.current_bet + amount, ..self }
    }

    /// What the player pays of a forced bet of `due` chips: the bet, or the
    /// whole wallet where that is less.
    pub open spec fn forced_payment(self, due: int) -> int {
        if self.wallet < due {
            self.wallet
        } else {
            due
        }
    }

    /// The player after a forced bet of `due` chips: what can be paid of it
    /// has moved from the wallet into the bet. A player who pays it in full
    /// keeps its state; one whose wallet falls short of it is all-in.
    pub open spec fn post(self, due: int) -> PlayerView {
        let q = self.bet(self.forced_payment(due));
        if self.wallet < due {
            q.with_state(PlayerState::AllIn)
        } else {
            q
        }
    }

    /// The player has neither folded nor gone all-in.
    pub open spec fn can_act(self) -> bool {
        self.state != PlayerState::Folded && self.state != PlayerState::AllIn
    }

    /// The player still contends for the pot.
    pub open spec fn contends(self) -> bool {
        self.state != PlayerState::Folded && !self.disconnected
    }

    /// The turn cursor passes over the player: a folded player always, an
    /// all-in player outside the betting phases.
    pub open spec fn skipped(self, bet_phase: bool) -> bool {
        self.state == PlayerState::Folded || (!bet_phase && self.state == PlayerState::AllIn)
    }
}

/// Position of the first player from `start` on who has the given name, the
/// number of players if there is none.
pub open spec fn find_from(players: Seq<PlayerView>, name: Seq<char>, start: int) -> int
    decreases players.len() - start,
{
    if start >= players.len() {
        players.len() as int
    } else if players[start].name == name {
        start
    } else {
        find_from(players, name, start + 1)
    }
}

/// Position of the first player with the given name, the number of players
/// if there is none.
pub open spec fn find_player(players: Seq<PlayerView>, name: Seq<char>) -> int {
    find_from(players, name, 0)
}

/// A player of the given name is found exactly where one exists: the
/// position found is that of the first such player.
pub proof fn lemma_find_player(players: Seq<PlayerView>, name: Seq<char>, start: int)
    requires
        0 <= start <= players.len(),
    ensures
        start <= find_from(players, name, start) <= players.len(),
        find_from(players, name, start) < players.len() ==> players[find_from(
            players,
            name,
            start,
        )].name == name,
        forall|i: int|
            start <= i < find_from(players, name, start) ==> (#[trigger] players[i]).name != name,
    decreases players.len() - start,
{
    if start < players.len() && players[start].name != name {
        lemma_find_player(players, name, start + 1);
    }
}

/// The players without those of the given name, in their order.
pub open spec fn without_name(players: Seq<PlayerView>, name: Seq<char>) -> Seq<PlayerView>
    decreases players.len(),
{
    if players.len() == 0 {
        players
    } else if players.last().name == name {
        without_name(players.drop_last(), name)
    } else {
        without_name(players.drop_last(), name).push(players.last())
    }
}

/// Number of players who are ready.
pub open spec fn ready_count(players: Seq<PlayerView>) -> int
    decreases players.len(),
{
    if players.len() == 0 {
        0
    } else {
        ready_count(players.drop_last()) + if players.last().ready {
            1int
        } else {
            0int
        }
    }
}

/// The models of a list of players.
pub open spec fn seats(players: Seq<Player>) -> Seq<PlayerView> {
    players.map_values(|p: Player| p@)
}

/// The first player with the given name.
pub fn find_player_index(players: &Vec<Player>, name: &str) -> (found: Option<usize>)
    ensures
        match found {
            Some(i) => i < players@.len() && i == find_player(seats(players@), name@),
            None => find_player(seats(players@), name@) == players@.len(),
        },
{
    let wanted = name.to_string();
    let mut i: usize = 0;
    while i < players.len()
        invariant
            0 <= i <= players@.len(),
            wanted@ == name@,
            find_player(seats(players@), name@) == find_from(seats(players@), name@, i as int),
        decreases players@.len() - i,
    {
        if players[i].name == wanted {
            return Some(i);
        }
        i = i + 1;
    }
    None
}

/// Removes every player of the given name and keeps the others in order.
pub fn remove_named(players: &mut Vec<Player>, name: &str)
    ensures
        seats(final(players)@) == without_name(seats(old(players)@), name@),
        final(players)@.len() <= old(players)@.len(),
{
    let wanted = name.to_string();
    let ghost before = seats(players@);
    let ghost mut k: int = 0;
    let mut i: usize = 0;
    assert(before.subrange(0, 0) =~= Seq::<PlayerView>::empty());
    while i < players.len()
        invariant
            wanted@ == name@,
            0 <= i <= players@.len(),
            i <= k <= before.len(),
            before.len() == old(players)@.len(),
            before == seats(old(players)@),
            players@.len() - i == before.len() - k,
            seats(players@).subrange(0, i as int) == without_name(before.subrange(0, k), name@),
            forall|j: int| i <= j < players@.len() ==> seats(players@)[j] == before[j - i + k],
        decreases players@.len() - i,
    {
        let ghost cur = seats(players@);
        assert(cur[i as int] == before[k]);
        assert(before.subrange(0, k + 1).drop_last() =~= before.subrange(0, k));
        assert(before.subrange(0, k + 1).last() == before[k]);
        if players[i].name == wanted {
            players.remove(i);
            proof {
                let now = seats(players@);
                assert(now =~= cur.remove(i as int));
                assert(now.subrange(0, i as int) =~= cur.subrange(0, i as int));
                assert forall|j: int| i <= j < players@.len() implies seats(players@)[j] == before[j
                    - i + k + 1] by {
                    assert(now[j] == cur[j + 1]);
                }
                k = k + 1;
            }
        } else {
            proof {
                assert(cur.subrange(0, i + 1) =~= cur.subrange(0, i as int).push(cur[i as int]));
                k = k + 1;
            }
            i = i + 1;
        }
    }
    proof {
        assert(seats(players@).subrange(0, i as int) =~= seats(players@));
        assert(before.subrange(0, k) =~= before);
    }
}

impl Clone for Player {
    fn clone(&self) -> (copy: Player)
        ensures
            copy@ == self@,
    {
        Player {
            name: self.name.clone(),
            id: self.id.clone(),
            hand: self.hand.clone(),
            wallet: self.wallet,
            state: self.state,
            current_bet: self.current_bet,
            ready: self.ready,
            games_played: self.games_played,
            games_won: self.games_won,
            disconnected: self.disconnected,
        }
    }
}

} // verus!
