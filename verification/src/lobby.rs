//! A game room: its seats, spectators, deck, pot and turn cursor, and the
//! directory of rooms that the server-wide lobby keeps.

use crate::deck::{Deck, DeckView};
use crate::database::{stats_of, PlayerStats};
use crate::player::{
    find_player, find_player_index, ready_count, remove_named, seats, without_name, Player,
    PlayerState, PlayerView,
};
use vstd::prelude::*;

verus! {

/// Result of removing the last player of a lobby.
pub const GAME_LOBBY_EMPTY: i32 = 103;

/// Result of removing a player while others stay.
pub const GAME_LOBBY_NOT_EMPTY: i32 = 104;

/// Phase of a lobby.
#[derive(Clone, Copy, Debug, PartialEq, Eq, Structural)]
pub enum GameState {
    Joinable,
    GameLobbyFull,
    StartOfRound,
    Ante,
    SmallAndBigBlind,
    DealCards,
    BringIn,
    FirstBettingRound,
    Draw,
    SecondBettingRound,
    BettingRound,
    Showdown,
    EndOfRound,
    UpdateDb,
}

/// Poker variant that a lobby plays.
#[derive(Clone, Copy, Debug, PartialEq, Eq, Structural)]
pub enum GameType {
    FiveCardDraw,
    SevenCardStud,
    TexasHoldEm,
    NotSet,
}

/// Seat limit of a variant.
pub open spec fn max_players(game_type: GameType) -> int {
    match game_type {
        GameType::FiveCardDraw => 5,
        GameType::SevenCardStud => 7,
        GameType::TexasHoldEm => 10,
        GameType::NotSet => 5,
    }
}

/// What the directory publishes about a lobby.
#[derive(Debug)]
pub struct LobbyEntry {
    pub name: String,
    pub game_state: GameState,
    pub game_type: GameType,
    pub current_player_count: i32,
    pub max_player_count: i32,
}

/// Mathematical model of a directory entry.
#[verifier::ext_equal]
pub struct LobbyEntryView {
    pub name: Seq<char>,
    pub game_state: GameState,
    pub game_type: GameType,
    pub current_player_count: int,
    pub max_player_count: int,
}

impl View for LobbyEntry {
    type V = LobbyEntryView;

    open spec fn view(&self) -> LobbyEntryView {
        LobbyEntryView {
            name: self.name@,
            game_state: self.game_state,
            game_type: self.game_type,
            current_player_count: self.current_player_count as int,
            max_player_count: self.max_player_count as int,
        }
    }
}

impl Clone for LobbyEntry {
    fn clone(&self) -> (copy: LobbyEntry)
        ensures
            copy@ == self@,
    {
        LobbyEntry {
            name: self.name.clone(),
            game_state: self.game_state,
            game_type: self.game_type,
            current_player_count: self.current_player_count,
            max_player_count: self.max_player_count,
        }
    }
}

/// A lobby. The server-wide lobby uses `lobby_names_and_status` as the
/// directory of game lobbies; a game lobby uses the fields of the round.
#[derive(Debug)]
pub struct Lobby {
    pub name: String,
    pub players: Vec<Player>,
    pub spectators: Vec<Player>,
    pub lobby_names_and_status: Vec<LobbyEntry>,
    pub deck: Deck,
    pub pot: i32,
    pub current_player_count: i32,
    pub max_player_count: i32,
    pub game_state: GameState,
    pub first_betting_player: i32,
    pub game_type: GameType,
    pub current_max_bet: i32,
    pub community_cards: Vec<i32>,
    pub current_player_turn: String,
    pub current_player_index: i32,
    pub turns_remaining: i32,
    pub deal_card_counter: i32,
    pub betting_round_counter: i32,
}

/// The models of a list of directory entries.
pub open spec fn entries(list: Seq<LobbyEntry>) -> Seq<LobbyEntryView> {
    list.map_values(|e: LobbyEntry| e@)
}

/// Sum of the bets that the seats have made in the current betting round.
pub open spec fn total_bets(players: Seq<PlayerView>) -> int
    decreases players.len(),
{
    if players.len() == 0 {
        0
    } else {
        total_bets(players.drop_last()) + players.last().current_bet
    }
}

/// Sum of the wallets of the seats.
pub open spec fn total_wallets(players: Seq<PlayerView>) -> int
    decreases players.len(),
{
    if players.len() == 0 {
        0
    } else {
        total_wallets(players.drop_last()) + players.last().wallet
    }
}

/// Number of seats that still contend for the pot: neither folded nor
/// disconnected.
pub open spec fn contenders(players: Seq<PlayerView>) -> int
    decreases players.len(),
{
    if players.len() == 0 {
        0
    } else {
        contenders(players.drop_last()) + if players.last().contends() {
            1int
        } else {
            0int
        }
    }
}

/// Whether bets are taken in the phase.
pub open spec fn is_bet_phase(state: GameState) -> bool {
    state == GameState::FirstBettingRound || state == GameState::SecondBettingRound || state
        == GameState::BettingRound
}

/// The first seat, going round from `start` for at most `tries` seats, that
/// the cursor does not pass over; the seat reached after `tries` steps if
/// it passes over all of them.
pub open spec fn next_seat(players: Seq<PlayerView>, start: int, tries: nat, bet_phase: bool) -> int
    decreases tries,
{
    if tries == 0 || !players[start].skipped(bet_phase) {
        start
    } else {
        next_seat(players, (start + 1) % (players.len() as int), (tries - 1) as nat, bet_phase)
    }
}

/// Mathematical model of a lobby.
#[verifier::ext_equal]
pub struct LobbyView {
    pub name: Seq<char>,
    pub players: Seq<PlayerView>,
    pub spectators: Seq<PlayerView>,
    pub directory: Seq<LobbyEntryView>,
    pub deck: DeckView,
    pub pot: int,
    pub current_player_count: int,
    pub max_player_count: int,
    pub game_state: GameState,
    pub first_betting_player: int,
    pub game_type: GameType,
    pub current_max_bet: int,
    pub community_cards: Seq<i32>,
    pub current_player_turn: Seq<char>,
    pub current_player_index: int,
    pub turns_remaining: int,
    pub deal_card_counter: int,
    pub betting_round_counter: int,
}

impl View for Lobby {
    type V = LobbyView;

    open spec fn view(&self) -> LobbyView {
        LobbyView {
            name: self.name@,
            players: seats(self.players@),
            spectators: seats(self.spectators@),
            directory: entries(self.lobby_names_and_status@),
            deck: self.deck@,
            pot: self.pot as int,
            current_player_count: self.current_player_count as int,
            max_player_count: self.max_player_count as int,
            game_state: self.game_state,
            first_betting_player: self.first_betting_player as int,
            game_type: self.game_type,
            current_max_bet: self.current_max_bet as int,
            community_cards: self.community_cards@,
            current_player_turn: self.current_player_turn@,
            current_player_index: self.current_player_index as int,
            turns_remaining: self.turns_remaining as int,
            deal_card_counter: self.deal_card_counter as int,
            betting_round_counter: self.betting_round_counter as int,
        }
    }
}

impl LobbyView {
    /// A new, empty lobby.
    pub open spec fn fresh(game_type: GameType, name: Seq<char>) -> LobbyView {
        LobbyView {
            name,
            players: Seq::empty(),
            spectators: Seq::empty(),
            directory: Seq::empty(),
            deck: DeckView { cards: crate::deck::fresh_cards(), next: 0 },
            pot: 0,
            current_player_count: 0,
            max_player_count: max_players(game_type),
            game_state: GameState::Joinable,
            first_betting_player: 0,
            game_type,
            current_max_bet: 0,
            community_cards: Seq::empty(),
            current_player_turn: Seq::empty(),
            current_player_index: 0,
            turns_remaining: 0,
            deal_card_counter: 1,
            betting_round_counter: 1,
        }
    }

    /// The seat count matches the seats and respects the variant's limit.
    pub open spec fn wf(self) -> bool {
        &&& self.current_player_count == self.players.len()
        &&& self.max_player_count == max_players(self.game_type)
        &&& self.current_player_count <= self.max_player_count
    }

    /// A round can be played: there is a seat, and the cursor and the first
    /// bettor point at seats.
    pub open spec fn seated(self) -> bool {
        &&& self.wf()
        &&& 0 <= self.first_betting_player < self.current_player_count
        &&& 0 <= self.current_player_index < self.current_player_count
    }

    /// The chip invariant: no amount is negative, the bets of the round are
    /// part of the pot, and all chips in play fit the machine's integers.
    pub open spec fn chips_ok(self) -> bool {
        &&& 0 <= self.pot
        &&& 0 <= self.current_max_bet
        &&& forall|i: int|
            0 <= i < self.players.len() ==> 0 <= (#[trigger] self.players[i]).wallet && 0
                <= self.players[i].current_bet
        &&& total_bets(self.players) <= self.pot
        &&& self.pot + total_wallets(self.players) <= i32::MAX
    }

    /// No seat has bet more than the highest bet of the round.
    pub open spec fn bets_capped(self) -> bool {
        forall|i: int|
            0 <= i < self.players.len() ==> (#[trigger] self.players[i]).current_bet
                <= self.current_max_bet
    }

    /// No seat has a bet standing and the highest bet is zero, as it is
    /// between rounds.
    pub open spec fn no_bet_stands(self) -> bool {
        &&& self.current_max_bet == 0
        &&& forall|i: int|
            0 <= i < self.players.len() ==> (#[trigger] self.players[i]).current_bet == 0
    }

    /// Every seat can win one more game without its counter running over.
    pub open spec fn wins_fit(self) -> bool {
        forall|i: int|
            0 <= i < self.players.len() ==> (#[trigger] self.players[i]).games_won < i32::MAX
    }

    /// Every seat can play `room` more games without its counter running
    /// over.
    pub open spec fn plays_fit(self, room: int) -> bool {
        forall|i: int|
            0 <= i < self.players.len() ==> (#[trigger] self.players[i]).games_played + room
                <= i32::MAX
    }

    /// Every seat that has left the table has folded.
    pub open spec fn gone_seats_folded(self) -> bool {
        forall|i: int|
            0 <= i < self.players.len() && (#[trigger] self.players[i]).disconnected
                ==> self.players[i].state == PlayerState::Folded
    }

    /// The seat whose turn it is.
    pub open spec fn on_turn(self) -> PlayerView {
        self.players[self.current_player_index]
    }

    /// The lobby with seat `i` replaced.
    pub open spec fn set_player(self, i: int, p: PlayerView) -> LobbyView {
        LobbyView { players: self.players.update(i, p), ..self }
    }

    /// The lobby after a player asked for a seat: below capacity the player
    /// is seated, and the lobby is full or joinable by the new count; at
    /// capacity nothing changes.
    pub open spec fn seat_player(self, p: PlayerView) -> LobbyView {
        if self.current_player_count < self.max_player_count {
            LobbyView {
                players: self.players.push(p.with_state(PlayerState::InLobby)),
                current_player_count: self.current_player_count + 1,
                game_state: if self.current_player_count + 1 == self.max_player_count {
                    GameState::GameLobbyFull
                } else {
                    GameState::Joinable
                },
                ..self
            }
        } else {
            self
        }
    }

    /// The lobby after the players of the given name left: a lobby that
    /// still has players is joinable again.
    pub open spec fn leave(self, name: Seq<char>) -> LobbyView {
        let rest = without_name(self.players, name);
        LobbyView {
            players: rest,
            current_player_count: rest.len() as int,
            game_state: if rest.len() == 0 {
                self.game_state
            } else {
                GameState::Joinable
            },
            ..self
        }
    }

    /// The lobby with the first seat of the given name changed by `f`.
    pub open spec fn change_named(self, name: Seq<char>,
        f: spec_fn(PlayerView) -> PlayerView) -> LobbyView {
        let i = find_player(self.players, name);
        if i < self.players.len() {
            self.set_player(i, f(self.players[i]))
        } else {
            self
        }
    }

    /// The lobby with every seat changed by `f`.
    pub open spec fn change_all(self, f: spec_fn(PlayerView) -> PlayerView) -> LobbyView {
        LobbyView { players: self.players.map_values(f), ..self }
    }

    /// The lobby at the start of a round: the first bettor moves on by one
    /// seat and is on turn, every seat owes an action, and the deck holds
    /// the shuffled cards.
    pub open spec fn begin_round(self, shuffled: Seq<i32>) -> LobbyView {
        let first = (self.first_betting_player + 1) % self.current_player_count;
        LobbyView {
            first_betting_player: first,
            current_player_index: first,
            current_player_turn: self.players[first].name,
            turns_remaining: self.current_player_count,
            game_state: GameState::StartOfRound,
            deck: DeckView { cards: shuffled, next: 0 },
            ..self
        }
    }

    /// The lobby with the cursor on the next seat to act: from the first
    /// bettor on a reset, else from the seat after the cursor, passing over
    /// folded seats and, outside the betting phases, all-in seats.
    pub open spec fn advance_turn(self, reset: bool) -> LobbyView {
        let start = if reset {
            self.first_betting_player
        } else {
            (self.current_player_index + 1) % self.current_player_count
        };
        let seat = next_seat(
            self.players,
            start,
            self.current_player_count as nat,
            is_bet_phase(self.game_state),
        );
        LobbyView {
            current_player_index: seat,
            current_player_turn: self.players[seat].name,
            ..self
        }
    }

    /// At most one seat still contends for the pot.
    pub open spec fn hand_decided(self) -> bool {
        contenders(self.players) <= 1
    }

    /// The lobby between two betting rounds: no seat has a bet standing and
    /// the highest bet is zero.
    pub open spec fn without_bets(self) -> LobbyView {
        LobbyView {
            players: self.players.map_values(|p: PlayerView| p.without_bet()),
            current_max_bet: 0,
            ..self
        }
    }

    /// The lobby after a round was closed: pot, bets and community cards are
    /// gone, nobody is ready, every seat is back in the lobby with an empty
    /// hand, and the lobby is joinable.
    pub open spec fn closed_round(self) -> LobbyView {
        LobbyView {
            players: self.players.map_values(
                |p: PlayerView|
                    PlayerView {
                        current_bet: 0,
                        ready: false,
                        state: PlayerState::InLobby,
                        hand: Seq::empty(),
                        ..p
                    },
            ),
            pot: 0,
            current_max_bet: 0,
            community_cards: Seq::empty(),
            game_state: GameState::Joinable,
            deal_card_counter: 1,
            betting_round_counter: 1,
            ..self
        }
    }
}

/// Applies `wanted` to every seat.
fn for_each_seat(players: &mut Vec<Player>, wanted: SeatChange)
    ensures
        seats(final(players)@) == seats(old(players)@).map_values(|p: PlayerView| wanted.apply(p)),
        final(players)@.len() == old(players)@.len(),
{
    let n = players.len();
    let mut i: usize = 0;
    while i < n
        invariant
            0 <= i <= n,
            players@.len() == n,
            old(players)@.len() == n,
            forall|j: int| 0 <= j < i ==> players@[j]@ == wanted.apply(old(players)@[j]@),
            forall|j: int| i <= j < n ==> players@[j] == old(players)@[j],
        decreases n - i,
    {
        match wanted {
            SeatChange::Unready => {
                players[i].ready = false;
            },
            SeatChange::Reset(state) => {
                players[i].state = state;
                players[i].hand = Vec::new();
            },
            SeatChange::ClearBet => {
                players[i].current_bet = 0;
            },
            SeatChange::Flush => {
                players[i].games_played = 0;
                players[i].games_won = 0;
            },
            SeatChange::CloseRound => {
                players[i].current_bet = 0;
                players[i].ready = false;
                players[i].state = PlayerState::InLobby;
                players[i].hand = Vec::new();
            },
        }
        i = i + 1;
    }
    assert(seats(players@) =~= seats(old(players)@).map_values(|p: PlayerView| wanted.apply(p)));
}

/// A change that is made to every seat at once.
#[derive(Clone, Copy)]
pub enum SeatChange {
    /// Nobody is ready any more.
    Unready,
    /// Every seat gets the state and an empty hand.
    Reset(PlayerState),
    /// No seat has a bet standing.
    ClearBet,
    /// The games played and won since the last write to the store count
    /// from zero again.
    Flush,
    /// Bets, readiness, state and hand go back to what they are between
    /// rounds.
    CloseRound,
}

impl SeatChange {
    /// The seat after the change.
    pub open spec fn apply(self, p: PlayerView) -> PlayerView {
        match self {
            SeatChange::Unready => p.with_ready(false),
            SeatChange::Reset(state) => p.cleared(state),
            SeatChange::ClearBet => p.without_bet(),
            SeatChange::Flush => p.flushed(),
            SeatChange::CloseRound => PlayerView {
                current_bet: 0,
                ready: false,
                state: PlayerState::InLobby,
                hand: Seq::empty(),
                ..p
            },
        }
    }
}

impl Lobby {
    /// A new, empty lobby for the variant, joinable, with a fresh deck.
    pub fn new(lobby_type: GameType, lobby_name: String) -> (lobby: Lobby)
        ensures
            lobby@ == LobbyView::fresh(lobby_type, lobby_name@),
            lobby@.wf(),
            lobby@.chips_ok(),
    {
        let player_count: i32 = match lobby_type {
            GameType::FiveCardDraw => 5,
            GameType::SevenCardStud => 7,
            GameType::TexasHoldEm => 10,
            GameType::NotSet => 5,
        };
        let lobby = Lobby {
            name: lobby_name,
            players: Vec::new(),
            spectators: Vec::new(),
            lobby_names_and_status: Vec::new(),
            deck: Deck::new(),
            pot: 0,
            current_player_count: 0,
            max_player_count: player_count,
            game_state: GameState::Joinable,
            first_betting_player: 0,
            game_type: lobby_type,
            current_max_bet: 0,
            community_cards: Vec::new(),
            current_player_turn: String::new(),
            current_player_index: 0,
            turns_remaining: 0,
            deal_card_counter: 1,
            betting_round_counter: 1,
        };
        assert(lobby@.players =~= Seq::empty());
        assert(lobby@.spectators =~= Seq::empty());
        assert(lobby@.directory =~= Seq::empty());
        lobby
    }

    /// Number of seated players.
    pub fn get_player_count(&self) -> (count: i32)
        ensures
            count == self@.current_player_count,
    {
        self.current_player_count
    }

    /// Counts one player more, without seating anyone.
    pub fn increment_player_count(&mut self)
        requires
            old(self)@.current_player_count < i32::MAX,
        ensures
            final(self)@ == (LobbyView {
                current_player_count: old(self)@.current_player_count + 1,
                ..old(self)@
            }),
    {
        self.current_player_count += 1;
    }

    /// Counts one player less, without unseating anyone.
    pub fn decrement_player_count(&mut self)
        requires
            old(self)@.current_player_count > i32::MIN,
        ensures
            final(self)@ == (LobbyView {
                current_player_count: old(self)@.current_player_count - 1,
                ..old(self)@
            }),
    {
        self.current_player_count -= 1;
    }

    /// Seats the player unless the lobby is at capacity, and says whether
    /// the player was seated.
    pub fn add_player(&mut self, player: Player) -> (admitted: bool)
        ensures
            admitted == (old(self)@.current_player_count < old(self)@.max_player_count),
            final(self)@ == old(self)@.seat_player(player@),
            old(self)@.wf() ==> final(self)@.wf(),
            old(self)@.chips_ok() && 0 <= player@.wallet && 0 <= player@.current_bet && total_bets(
                old(self)@.players,
            ) + player@.current_bet <= old(self)@.pot && old(self)@.pot + total_wallets(
                old(self)@.players,
            ) + player@.wallet <= i32::MAX ==> final(self)@.chips_ok(),
            old(self)@.bets_capped() && player@.current_bet <= old(self)@.current_max_bet
                ==> final(self)@.bets_capped(),
    {
        if self.current_player_count < self.max_player_count {
            let mut player = player;
            player.state = PlayerState::InLobby;
            self.players.push(player);
            self.current_player_count += 1;
            if self.current_player_count == self.max_player_count {
                self.game_state = GameState::GameLobbyFull;
            } else {
                self.game_state = GameState::Joinable;
            }
            assert(self@.players =~= old(self)@.players.push(player@));
            assert(self@.players.drop_last() =~= old(self)@.players);
            true
        } else {
            false
        }
    }

    /// Adds a spectator. Spectators take no seat.
    pub fn add_spectator(&mut self, player: Player)
        ensures
            final(self)@ == (LobbyView {
                spectators: old(self)@.spectators.push(player@),
                ..old(self)@
            }),
    {
        self.spectators.push(player);
        assert(self@.spectators =~= old(self)@.spectators.push(player@));
    }

    /// Removes the players of the given name and says whether the lobby is
    /// now empty.
    pub fn remove_player(&mut self, username: String) -> (status: i32)
        requires
            old(self)@.players.len() <= i32::MAX,
        ensures
            final(self)@ == old(self)@.leave(username@),
            status == if final(self)@.players.len() == 0 {
                GAME_LOBBY_EMPTY
            } else {
                GAME_LOBBY_NOT_EMPTY
            },
            old(self)@.wf() ==> final(self)@.wf(),
            old(self)@.chips_ok() ==> final(self)@.chips_ok(),
            old(self)@.bets_capped() ==> final(self)@.bets_capped(),
    {
        proof {
            lemma_without_name_chips(old(self)@.players, username@);
        }
        remove_named(&mut self.players, username.as_str());
        self.current_player_count = self.players.len() as i32;
        if self.current_player_count == 0 {
            GAME_LOBBY_EMPTY
        } else {
            self.game_state = GameState::Joinable;
            GAME_LOBBY_NOT_EMPTY
        }
    }

    /// Removes the spectators of the given name and says whether there was
    /// one.
    pub fn remove_spectator(&mut self, username: String) -> (removed: bool)
        ensures
            final(self)@ == (LobbyView {
                spectators: without_name(old(self)@.spectators, username@),
                ..old(self)@
            }),
            removed == (final(self)@.spectators.len() < old(self)@.spectators.len()),
    {
        let initial_count = self.spectators.len();
        remove_named(&mut self.spectators, username.as_str());
        initial_count > self.spectators.len()
    }

    /// A copy of the first seated player with the given name.
    pub fn get_player(&self, username: &String) -> (found: Option<Player>)
        ensures
            match found {
                Some(p) => find_player(self@.players, username@) < self@.players.len() && p@
                    == self@.players[find_player(self@.players, username@)],
                None => find_player(self@.players, username@) == self@.players.len(),
            },
    {
        self.get_player_by_name(username.as_str())
    }

    /// A copy of the first seated player with the given name.
    pub fn get_player_by_name(&self, player_name: &str) -> (found: Option<Player>)
        ensures
            match found {
                Some(p) => find_player(self@.players, player_name@) < self@.players.len() && p@
                    == self@.players[find_player(self@.players, player_name@)],
                None => find_player(self@.players, player_name@) == self@.players.len(),
            },
    {
        match find_player_index(&self.players, player_name) {
            Some(i) => Some(self.players[i].clone()),
            None => None,
        }
    }

    /// Name and readiness of every seat, in seat order.
    pub fn get_player_names_and_status(&self) -> (list: Vec<(String, bool)>)
        ensures
            list@.len() == self@.players.len(),
            forall|i: int|
                0 <= i < list@.len() ==> (#[trigger] list@[i]).0@ == self@.players[i].name
                    && list@[i].1 == self@.players[i].ready,
    {
        let mut list: Vec<(String, bool)> = Vec::new();
        let mut i: usize = 0;
        while i < self.players.len()
            invariant
                0 <= i <= self.players@.len(),
                list@.len() == i,
                forall|j: int|
                    0 <= j < i ==> (#[trigger] list@[j]).0@ == self@.players[j].name && list@[j].1
                        == self@.players[j].ready,
            decreases self.players@.len() - i,
        {
            list.push((self.players[i].name.clone(), self.players[i].ready));
            i = i + 1;
        }
        list
    }

    /// Flips the readiness of the first seat with the given name and
    /// returns how many seats are ready, and how many seats there are.
    pub fn check_ready(&mut self, username: String) -> (counts: (i32, i32))
        requires
            old(self)@.players.len() <= i32::MAX,
        ensures
            final(self)@ == old(self)@.change_named(
                username@,
                |p: PlayerView| p.with_ready(!p.ready),
            ),
            counts.0 == ready_count(final(self)@.players),
            counts.1 == final(self)@.current_player_count,
            old(self)@.chips_ok() ==> final(self)@.chips_ok(),
            old(self)@.bets_capped() ==> final(self)@.bets_capped(),
    {
        match find_player_index(&self.players, username.as_str()) {
            Some(i) => {
                self.players[i].ready = !self.players[i].ready;
                assert(self@.players =~= old(self)@.players.update(
                    i as int,
                    old(self)@.players[i as int].with_ready(!old(self)@.players[i as int].ready),
                ));
            },
            None => {},
        }
        proof {
            lemma_same_chips(old(self)@, self@);
        }
        let mut ready_player_count: i32 = 0;
        let mut k: usize = 0;
        while k < self.players.len()
            invariant
                0 <= k <= self.players@.len(),
                self.players@.len() <= i32::MAX,
                old(self)@.chips_ok() ==> self@.chips_ok(),
                old(self)@.bets_capped() ==> self@.bets_capped(),
                self@ == old(self)@.change_named(
                    username@,
                    |p: PlayerView| p.with_ready(!p.ready),
                ),
                0 <= ready_player_count <= k,
                ready_player_count == ready_count(self@.players.subrange(0, k as int)),
            decreases self.players@.len() - k,
        {
            proof {
                let upto = self@.players.subrange(0, k + 1);
                assert(upto.drop_last() =~= self@.players.subrange(0, k as int));
                assert(upto.last() == self@.players[k as int]);
            }
            if self.players[k].ready {
                ready_player_count += 1;
            }
            k = k + 1;
        }
        assert(self@.players.subrange(0, k as int) =~= self@.players);
        (ready_player_count, self.current_player_count)
    }

    /// Nobody is ready any more.
    pub fn reset_ready(&mut self)
        ensures
            final(self)@ == old(self)@.change_all(|p: PlayerView| p.with_ready(false)),
            old(self)@.chips_ok() ==> final(self)@.chips_ok(),
            old(self)@.bets_capped() ==> final(self)@.bets_capped(),
    {
        for_each_seat(&mut self.players, SeatChange::Unready);
        assert(self@.players =~= old(self)@.players.map_values(|p: PlayerView| p.with_ready(false)));
        proof {
            lemma_same_chips(old(self)@, self@);
        }
    }

    /// Puts every seat into the given state and empties its hand.
    pub fn change_player_state(&mut self, state: PlayerState)
        ensures
            final(self)@ == old(self)@.change_all(|p: PlayerView| p.cleared(state)),
            old(self)@.chips_ok() ==> final(self)@.chips_ok(),
            old(self)@.bets_capped() ==> final(self)@.bets_capped(),
    {
        for_each_seat(&mut self.players, SeatChange::Reset(state));
        assert(self@.players =~= old(self)@.players.map_values(|p: PlayerView| p.cleared(state)));
        proof {
            lemma_same_chips(old(self)@, self@);
        }
    }

    /// Sets the state of the first seat with the given name and says
    /// whether there is such a seat.
    pub fn update_player_state(&mut self, player_name: &str, new_state: PlayerState) -> (found: bool)
        ensures
            found == (find_player(old(self)@.players, player_name@) < old(self)@.players.len()),
            final(self)@ == old(self)@.change_named(
                player_name@,
                |p: PlayerView| p.with_state(new_state),
            ),
            old(self)@.chips_ok() ==> final(self)@.chips_ok(),
            old(self)@.bets_capped() ==> final(self)@.bets_capped(),
    {
        match find_player_index(&self.players, player_name) {
            Some(i) => {
                self.players[i].state = new_state;
                assert(self@.players =~= old(self)@.players.update(
                    i as int,
                    old(self)@.players[i as int].with_state(new_state),
                ));
                proof {
                    lemma_same_chips(old(self)@, self@);
                }
                true
            },
            None => false,
        }
    }

    /// Sets wallet and game counters of the first seat with the given name.
    pub fn update_player_stats(
        &mut self,
        player_name: &str,
        wallet: i32,
        games_played: i32,
        games_won: i32,
    )
        ensures
            final(self)@ == old(self)@.change_named(
                player_name@,
                |p: PlayerView| p.with_stats(wallet as int, games_played as int, games_won as int),
            ),
            old(self)@.chips_ok() && 0 <= wallet && old(self)@.pot + total_wallets(
                old(self)@.players,
            ) + wallet <= i32::MAX ==> final(self)@.chips_ok(),
            old(self)@.bets_capped() ==> final(self)@.bets_capped(),
    {
        match find_player_index(&self.players, player_name) {
            Some(i) => {
                self.players[i].wallet = wallet;
                self.players[i].games_played = games_played;
                self.players[i].games_won = games_won;
                assert(self@.players =~= old(self)@.players.update(
                    i as int,
                    old(self)@.players[i as int].with_stats(
                        wallet as int,
                        games_played as int,
                        games_won as int,
                    ),
                ));
                proof {
                    lemma_totals_update(old(self)@.players, i as int, self@.players[i as int]);
                    if old(self)@.chips_ok() {
                        lemma_totals_bound(old(self)@.players, i as int);
                    }
                }
            },
            None => {},
        }
    }

    /// Sets the readiness of the first seat with the given name.
    pub fn set_player_ready(&mut self, player_name: &str, ready_state: bool)
        ensures
            final(self)@ == old(self)@.change_named(
                player_name@,
                |p: PlayerView| p.with_ready(ready_state),
            ),
            old(self)@.chips_ok() ==> final(self)@.chips_ok(),
            old(self)@.bets_capped() ==> final(self)@.bets_capped(),
    {
        match find_player_index(&self.players, player_name) {
            Some(i) => {
                self.players[i].ready = ready_state;
                assert(self@.players =~= old(self)@.players.update(
                    i as int,
                    old(self)@.players[i as int].with_ready(ready_state),
                ));
                proof {
                    lemma_same_chips(old(self)@, self@);
                }
            },
            None => {},
        }
    }

    /// Gives the first seat with the given name a new hand.
    pub fn update_player_hand(&mut self, player_name: &str, hand: Vec<i32>)
        ensures
            final(self)@ == old(self)@.change_named(
                player_name@,
                |p: PlayerView| p.with_hand(hand@),
            ),
            old(self)@.chips_ok() ==> final(self)@.chips_ok(),
            old(self)@.bets_capped() ==> final(self)@.bets_capped(),
    {
        match find_player_index(&self.players, player_name) {
            Some(i) => {
                self.players[i].hand = hand;
                assert(self@.players =~= old(self)@.players.update(
                    i as int,
                    old(self)@.players[i as int].with_hand(hand@),
                ));
                proof {
                    lemma_same_chips(old(self)@, self@);
                }
            },
            None => {},
        }
    }

    /// A player has taken a seat: every seat now owes a request to start.
    pub fn new_player_join(&mut self)
        ensures
            final(self)@ == (LobbyView {
                turns_remaining: old(self)@.current_player_count,
                ..old(self)@
            }),
    {
        self.turns_remaining = self.current_player_count;
    }

    /// Starts a round: moves the first bettor on by one seat, puts the
    /// cursor there, lets every seat owe an action and shuffles the deck.
    pub fn setup_game(&mut self)
        requires
            old(self)@.wf(),
            old(self)@.current_player_count > 0,
            0 <= old(self)@.first_betting_player < i32::MAX,
        ensures
            final(self)@ == old(self)@.begin_round(final(self)@.deck.cards),
            final(self)@.deck.cards.to_multiset() == old(self)@.deck.cards.to_multiset(),
            final(self)@.seated(),
            old(self)@.deck.wf() ==> final(self)@.deck.wf(),
            old(self)@.deck.dealable() ==> final(self)@.deck.dealable(),
            old(self)@.chips_ok() ==> final(self)@.chips_ok(),
            old(self)@.bets_capped() ==> final(self)@.bets_capped(),
            final(self)@.within_card_budget(),
    {
        self.first_betting_player = (self.first_betting_player + 1) % self.current_player_count;
        self.current_player_index = self.first_betting_player;
        self.current_player_turn = self.players[self.first_betting_player as usize].name.clone();
        self.turns_remaining = self.current_player_count;
        self.game_state = GameState::StartOfRound;
        self.deck.shuffle();
        proof {
            old(self)@.deck.cards.to_multiset_ensures();
            self@.deck.cards.to_multiset_ensures();
            crate::budget::lemma_budget_at_start(self@);
        }
    }

    /// Moves the cursor to the next seat to act: from the first bettor on a
    /// reset, else from the seat after the cursor, passing over folded
    /// seats and, outside the betting phases, all-in seats.
    pub fn get_next_player(&mut self, reset: bool)
        requires
            old(self)@.seated(),
        ensures
            final(self)@ == old(self)@.advance_turn(reset),
            final(self)@.seated(),
            same_chips(old(self)@, final(self)@),
    {
        let count = self.current_player_count;
        let bet_phase = match self.game_state {
            GameState::FirstBettingRound => true,
            GameState::SecondBettingRound => true,
            GameState::BettingRound => true,
            _ => false,
        };
        let start: i32 = if reset {
            self.first_betting_player
        } else {
            (self.current_player_index + 1) % count
        };
        let mut idx: i32 = start;
        let mut tries: i32 = count;
        while tries > 0 && skips(&self.players[idx as usize], bet_phase)
            invariant
                0 <= idx < count,
                0 <= tries <= count,
                count == self.players@.len(),
                next_seat(self@.players, start as int, count as nat, bet_phase) == next_seat(
                    self@.players,
                    idx as int,
                    tries as nat,
                    bet_phase,
                ),
            decreases tries,
        {
            idx = (idx + 1) % count;
            tries = tries - 1;
        }
        self.current_player_index = idx;
        self.current_player_turn = self.players[idx as usize].name.clone();
    }

    /// Whether the hand is decided because at most one seat is left that
    /// has neither folded nor disconnected.
    pub fn check_end_game(&self) -> (over: bool)
        ensures
            over == self@.hand_decided(),
    {
        let mut left: usize = 0;
        let mut k: usize = 0;
        while k < self.players.len()
            invariant
                0 <= k <= self.players@.len(),
                0 <= left <= k,
                left == contenders(self@.players.subrange(0, k as int)),
            decreases self.players@.len() - k,
        {
            proof {
                let upto = self@.players.subrange(0, k + 1);
                assert(upto.drop_last() =~= self@.players.subrange(0, k as int));
                assert(upto.last() == self@.players[k as int]);
            }
            if self.players[k].state != PlayerState::Folded && !self.players[k].disconnected {
                left = left + 1;
            }
            k = k + 1;
        }
        assert(self@.players.subrange(0, k as int) =~= self@.players);
        left <= 1
    }

    /// Ends a betting round: no seat has a bet standing and the highest bet
    /// is zero.
    pub fn clear_betting(&mut self)
        ensures
            final(self)@ == old(self)@.without_bets(),
            old(self)@.chips_ok() ==> final(self)@.chips_ok(),
            final(self)@.bets_capped(),
            old(self)@.seated() ==> final(self)@.seated(),
    {
        for_each_seat(&mut self.players, SeatChange::ClearBet);
        self.current_max_bet = 0;
        assert(self@.players =~= old(self)@.players.map_values(|p: PlayerView| p.without_bet()));
        proof {
            lemma_without_bets(old(self)@);
        }
    }

    /// Hands out what has to be written to the account store, one record
    /// per seat in seat order, and lets the seats count their games from
    /// zero again.
    pub fn update_db(&mut self) -> (records: Vec<PlayerStats>)
        ensures
            records@.map_values(|r: PlayerStats| r@) == old(self)@.players.map_values(
                |p: PlayerView| stats_of(p),
            ),
            final(self)@ == old(self)@.change_all(|p: PlayerView| p.flushed()),
            old(self)@.chips_ok() ==> final(self)@.chips_ok(),
            old(self)@.bets_capped() ==> final(self)@.bets_capped(),
    {
        let mut records: Vec<PlayerStats> = Vec::new();
        let mut i: usize = 0;
        while i < self.players.len()
            invariant
                0 <= i <= self.players@.len(),
                records@.len() == i,
                forall|j: int| 0 <= j < i ==> (#[trigger] records@[j])@ == stats_of(self@.players[j]),
            decreases self.players@.len() - i,
        {
            records.push(
                PlayerStats {
                    id: self.players[i].id.clone(),
                    name: self.players[i].name.clone(),
                    games_played: self.players[i].games_played,
                    games_won: self.players[i].games_won,
                    wallet: self.players[i].wallet,
                },
            );
            i = i + 1;
        }
        assert(records@.map_values(|r: PlayerStats| r@) =~= old(self)@.players.map_values(
            |p: PlayerView| stats_of(p),
        ));
        for_each_seat(&mut self.players, SeatChange::Flush);
        assert(self@.players =~= old(self)@.players.map_values(|p: PlayerView| p.flushed()));
        proof {
            lemma_same_chips(old(self)@, self@);
        }
        records
    }

    /// Whether the cursor and the first bettor point at seats and the seat
    /// count is in order.
    pub fn is_seated(&self) -> (ok: bool)
        ensures
            ok == self@.seated(),
    {
        let max: i32 = match self.game_type {
            GameType::FiveCardDraw => 5,
            GameType::SevenCardStud => 7,
            GameType::TexasHoldEm => 10,
            GameType::NotSet => 5,
        };
        self.current_player_count >= 0 && self.players.len() <= 10
            && self.current_player_count as usize == self.players.len() && self.max_player_count
            == max && self.current_player_count <= self.max_player_count && 0
            <= self.first_betting_player && self.first_betting_player < self.current_player_count
            && 0 <= self.current_player_index && self.current_player_index
            < self.current_player_count
    }

    /// Whether the chip invariant holds: no amount is negative, the bets of
    /// the round are part of the pot, and all chips in play fit the
    /// machine's integers.
    pub fn chips_in_order(&self) -> (ok: bool)
        requires
            self@.players.len() <= i32::MAX,
        ensures
            ok == self@.chips_ok(),
    {
        if self.pot < 0 || self.current_max_bet < 0 {
            return false;
        }
        let n = self.players.len();
        let mut wallets: i64 = 0;
        let mut bets: i64 = 0;
        let mut k: usize = 0;
        while k < n
            invariant
                0 <= k <= n,
                n == self@.players.len(),
                n <= i32::MAX,
                forall|i: int|
                    0 <= i < k ==> 0 <= (#[trigger] self@.players[i]).wallet && 0
                        <= self@.players[i].current_bet,
                wallets == total_wallets(self@.players.subrange(0, k as int)),
                bets == total_bets(self@.players.subrange(0, k as int)),
                0 <= wallets <= k * i32::MAX,
                0 <= bets <= k * i32::MAX,
            decreases n - k,
        {
            if self.players[k].wallet < 0 || self.players[k].current_bet < 0 {
                assert(!(0 <= self@.players[k as int].wallet && 0
                    <= self@.players[k as int].current_bet));
                return false;
            }
            proof {
                let upto = self@.players.subrange(0, k + 1);
                assert(upto.drop_last() =~= self@.players.subrange(0, k as int));
                assert(upto.last() == self@.players[k as int]);
                assert((k + 1) * i32::MAX == k * i32::MAX + i32::MAX) by (nonlinear_arith);
                assert(k * i32::MAX <= i32::MAX * i32::MAX) by (nonlinear_arith)
                    requires
                        0 <= k <= i32::MAX,
                ;
            }
            wallets = wallets + self.players[k].wallet as i64;
            bets = bets + self.players[k].current_bet as i64;
            k = k + 1;
        }
        assert(self@.players.subrange(0, n as int) =~= self@.players);
        bets <= self.pot as i64 && self.pot as i64 + wallets <= i32::MAX as i64
    }

    /// Closes a round: pot, bets and community cards are gone, nobody is
    /// ready, every seat is back in the lobby with an empty hand, and the
    /// lobby is joinable.
    pub fn reset_game_for_new_round(&mut self)
        ensures
            final(self)@ == old(self)@.closed_round(),
            old(self)@.chips_ok() ==> final(self)@.chips_ok(),
            final(self)@.bets_capped(),
    {
        for_each_seat(&mut self.players, SeatChange::CloseRound);
        self.pot = 0;
        self.current_max_bet = 0;
        self.community_cards = Vec::new();
        self.game_state = GameState::Joinable;
        self.deal_card_counter = 1;
        self.betting_round_counter = 1;
        assert(self@.players =~= old(self)@.closed_round().players);
        proof {
            lemma_totals_same_chips(
                self@.players,
                old(self)@.players.map_values(|p: PlayerView| p.without_bet()),
            );
            lemma_totals_without_bets(old(self)@.players);
        }
    }
}

/// Whether the cursor passes over the seat.
fn skips(p: &Player, bet_phase: bool) -> (skip: bool)
    ensures
        skip == p@.skipped(bet_phase),
{
    p.state == PlayerState::Folded || (!bet_phase && p.state == PlayerState::AllIn)
}

/// Replacing one seat changes the sums of bets and wallets by what that
/// seat's bet and wallet change.
pub proof fn lemma_totals_update(players: Seq<PlayerView>, i: int, p: PlayerView)
    requires
        0 <= i < players.len(),
    ensures
        total_bets(players.update(i, p)) == total_bets(players) - players[i].current_bet
            + p.current_bet,
        total_wallets(players.update(i, p)) == total_wallets(players) - players[i].wallet
            + p.wallet,
    decreases players.len(),
{
    let updated = players.update(i, p);
    if i == players.len() - 1 {
        assert(updated.drop_last() =~= players.drop_last());
    } else {
        assert(updated.drop_last() =~= players.drop_last().update(i, p));
        lemma_totals_update(players.drop_last(), i, p);
    }
}

/// Where no wallet and no bet is negative, no seat has more than the sum.
pub proof fn lemma_totals_bound(players: Seq<PlayerView>, i: int)
    requires
        0 <= i < players.len(),
        forall|j: int|
            0 <= j < players.len() ==> 0 <= (#[trigger] players[j]).wallet && 0
                <= players[j].current_bet,
    ensures
        players[i].wallet <= total_wallets(players),
        players[i].current_bet <= total_bets(players),
        0 <= total_wallets(players),
        0 <= total_bets(players),
    decreases players.len(),
{
    lemma_totals_nonnegative(players.drop_last());
    if i < players.len() - 1 {
        assert(players.drop_last()[i] == players[i]);
        lemma_totals_bound(players.drop_last(), i);
    }
}

/// Where no wallet and no bet is negative, neither sum is.
pub proof fn lemma_totals_nonnegative(players: Seq<PlayerView>)
    requires
        forall|j: int|
            0 <= j < players.len() ==> 0 <= (#[trigger] players[j]).wallet && 0
                <= players[j].current_bet,
    ensures
        0 <= total_wallets(players),
        0 <= total_bets(players),
    decreases players.len(),
{
    if players.len() > 0 {
        assert forall|j: int| 0 <= j < players.drop_last().len() implies 0 <= (
        #[trigger] players.drop_last()[j]).wallet && 0 <= players.drop_last()[j].current_bet by {
            assert(players.drop_last()[j] == players[j]);
        }
        lemma_totals_nonnegative(players.drop_last());
    }
}

/// Clearing the bets leaves the wallets alone and brings the sum of the
/// bets to zero.
pub proof fn lemma_totals_without_bets(players: Seq<PlayerView>)
    ensures
        total_bets(players.map_values(|p: PlayerView| p.without_bet())) == 0,
        total_wallets(players.map_values(|p: PlayerView| p.without_bet())) == total_wallets(
            players,
        ),
    decreases players.len(),
{
    let cleared = players.map_values(|p: PlayerView| p.without_bet());
    if players.len() > 0 {
        assert(cleared.drop_last() =~= players.drop_last().map_values(
            |p: PlayerView| p.without_bet(),
        ));
        lemma_totals_without_bets(players.drop_last());
    }
}

/// Seats that agree on wallets and bets have the same sums.
pub proof fn lemma_totals_same_chips(a: Seq<PlayerView>, b: Seq<PlayerView>)
    requires
        a.len() == b.len(),
        forall|i: int|
            0 <= i < a.len() ==> (#[trigger] a[i]).wallet == b[i].wallet && a[i].current_bet
                == b[i].current_bet,
    ensures
        total_bets(a) == total_bets(b),
        total_wallets(a) == total_wallets(b),
    decreases a.len(),
{
    if a.len() > 0 {
        assert forall|i: int| 0 <= i < a.drop_last().len() implies (#[trigger] a.drop_last()[i]).wallet
            == b.drop_last()[i].wallet && a.drop_last()[i].current_bet
            == b.drop_last()[i].current_bet by {
            assert(a.drop_last()[i] == a[i]);
            assert(b.drop_last()[i] == b[i]);
        }
        lemma_totals_same_chips(a.drop_last(), b.drop_last());
        assert(a.last() == a[a.len() - 1]);
        assert(b.last() == b[a.len() - 1]);
    }
}

/// Two lobbies hold the same chips in the same places and agree on the
/// number of seats.
pub open spec fn same_chips(a: LobbyView, b: LobbyView) -> bool {
    &&& a.players.len() == b.players.len()
    &&& forall|i: int|
        0 <= i < a.players.len() ==> (#[trigger] a.players[i]).wallet == b.players[i].wallet
            && a.players[i].current_bet == b.players[i].current_bet
    &&& a.pot == b.pot
    &&& a.current_max_bet == b.current_max_bet
    &&& a.current_player_count == b.current_player_count
    &&& a.max_player_count == b.max_player_count
    &&& a.game_type == b.game_type
}

/// What holds of the chips and seats of a lobby holds of every lobby with
/// the same chips and seats.
pub proof fn lemma_same_chips(a: LobbyView, b: LobbyView)
    requires
        same_chips(a, b),
    ensures
        a.chips_ok() ==> b.chips_ok(),
        a.bets_capped() ==> b.bets_capped(),
        a.seated() && a.first_betting_player == b.first_betting_player && a.current_player_index
            == b.current_player_index ==> b.seated(),
        a.wf() ==> b.wf(),
{
    lemma_totals_same_chips(a.players, b.players);
    if a.chips_ok() {
        assert forall|i: int| 0 <= i < b.players.len() implies 0 <= (#[trigger] b.players[i]).wallet
            && 0 <= b.players[i].current_bet by {
            assert(a.players[i].wallet == b.players[i].wallet);
        }
    }
    if a.bets_capped() {
        assert forall|i: int| 0 <= i < b.players.len() implies (#[trigger] b.players[i]).current_bet
            <= b.current_max_bet by {
            assert(a.players[i].current_bet == b.players[i].current_bet);
        }
    }
}

/// Clearing the bets keeps the chip invariant and leaves no seat above the
/// highest bet.
pub proof fn lemma_without_bets(l: LobbyView)
    ensures
        l.chips_ok() ==> l.without_bets().chips_ok(),
        l.without_bets().bets_capped(),
        l.seated() ==> l.without_bets().seated(),
        l.wins_fit() ==> l.without_bets().wins_fit(),
        contenders(l.without_bets().players) == contenders(l.players),
{
    lemma_totals_without_bets(l.players);
    lemma_contenders_same(l.players, l.without_bets().players);
}

/// Seats that agree on state and connection have the same number of
/// contenders.
pub proof fn lemma_contenders_same(a: Seq<PlayerView>, b: Seq<PlayerView>)
    requires
        a.len() == b.len(),
        forall|i: int|
            0 <= i < a.len() ==> (#[trigger] a[i]).state == b[i].state && a[i].disconnected
                == b[i].disconnected,
    ensures
        contenders(a) == contenders(b),
    decreases a.len(),
{
    if a.len() > 0 {
        assert forall|i: int| 0 <= i < a.drop_last().len() implies (#[trigger] a.drop_last()[i]).state
            == b.drop_last()[i].state && a.drop_last()[i].disconnected
            == b.drop_last()[i].disconnected by {
            assert(a.drop_last()[i] == a[i]);
            assert(b.drop_last()[i] == b[i]);
        }
        lemma_contenders_same(a.drop_last(), b.drop_last());
        assert(a.last() == a[a.len() - 1]);
        assert(b.last() == b[a.len() - 1]);
    }
}

/// A lobby at capacity takes no further player. After one player has left
/// it takes exactly one: the next is seated and fills it, and the one after
/// that is turned away.
pub proof fn lemma_capacity(l: LobbyView, name: Seq<char>, p: PlayerView, q: PlayerView)
    requires
        l.wf(),
        l.current_player_count == l.max_player_count,
        without_name(l.players, name).len() == l.players.len() - 1,
    ensures
        l.seat_player(p) == l,
        l.leave(name).seat_player(p).players == without_name(l.players, name).push(
            p.with_state(PlayerState::InLobby),
        ),
        l.leave(name).seat_player(p).current_player_count == l.max_player_count,
        l.leave(name).seat_player(p).game_state == GameState::GameLobbyFull,
        l.leave(name).seat_player(p).seat_player(q) == l.leave(name).seat_player(p),
        l.leave(name).seat_player(p).wf(),
{
}

/// The players that stay when those of a name leave were at the table, and
/// hold no more chips than all held together.
pub proof fn lemma_without_name_chips(players: Seq<PlayerView>, name: Seq<char>)
    ensures
        forall|i: int|
            0 <= i < without_name(players, name).len() ==> players.contains(
                #[trigger] without_name(players, name)[i],
            ),
        (forall|j: int|
            0 <= j < players.len() ==> 0 <= (#[trigger] players[j]).wallet && 0
                <= players[j].current_bet) ==> total_wallets(without_name(players, name))
            <= total_wallets(players) && total_bets(without_name(players, name)) <= total_bets(
            players,
        ),
    decreases players.len(),
{
    if players.len() > 0 {
        let rest = players.drop_last();
        lemma_without_name_chips(rest, name);
        let kept = without_name(players, name);
        assert forall|i: int| 0 <= i < kept.len() implies players.contains(#[trigger] kept[i]) by {
            if i < without_name(rest, name).len() {
                let x = without_name(rest, name)[i];
                assert(rest.contains(x));
                let k = choose|k: int| 0 <= k < rest.len() && rest[k] == x;
                assert(players[k] == x);
            } else {
                assert(kept[i] == players[players.len() - 1]);
            }
        }
        if forall|j: int|
            0 <= j < players.len() ==> 0 <= (#[trigger] players[j]).wallet && 0
                <= players[j].current_bet {
            assert forall|j: int| 0 <= j < rest.len() implies 0 <= (#[trigger] rest[j]).wallet && 0
                <= rest[j].current_bet by {
                assert(rest[j] == players[j]);
            }
            assert(players.last() == players[players.len() - 1]);
            if players.last().name != name {
                assert(kept.drop_last() =~= without_name(rest, name));
                assert(kept.last() == players.last());
            }
        }
    }
}

} // verus!
