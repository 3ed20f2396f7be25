//! What a player's session decides: logging in, the server-wide lobby, the
//! waiting room of a game lobby, and watching a game.

use crate::directory::{entry_of, find_entry, game_type_of_code, names_unique};
use crate::games::ClientMessage;
use crate::lobby::{GameState, GameType, Lobby, LobbyView, GAME_LOBBY_EMPTY};
use crate::player::{without_name, Player, PlayerState, PlayerView, INITIAL_WALLET};
use vstd::prelude::*;

verus! {

/// Result of joining a lobby.
pub const SUCCESS: i32 = 100;

/// Result of failing to join a lobby.
pub const FAILED: i32 = 101;

/// What arrived from a player's connection.
#[derive(Debug)]
pub enum Frame {
    /// The peer closed the connection.
    Closed,
    /// A text message.
    Text(String),
    /// A message that is no text.
    Binary,
    /// Reading failed.
    Failed,
}

/// What the account store answered to a login or a registration.
#[derive(Debug)]
pub enum AccountReply {
    /// The account exists; the wallet is given where the store had it.
    Found { id: String, wallet: Option<i32> },
    /// There is no such account.
    Missing,
    /// The account was created.
    Registered,
    /// The account could not be created.
    Refused,
}

/// How a step of the login handshake ended.
#[derive(Clone, Copy, Debug, PartialEq, Eq, Structural)]
pub enum LoginStep {
    /// The player is logged in and in the server-wide lobby.
    LoggedIn,
    /// The account is in order, but the server-wide lobby is at capacity.
    ServerFull,
    /// The login failed.
    LoginFailed,
    /// The registration failed.
    RegistrationFailed,
    /// The player quit.
    Goodbye,
    /// The message is no part of the handshake.
    Ignored,
}

/// What the session has to do after a message in the server-wide lobby.
#[derive(Debug)]
pub enum ServerLobbyAction {
    /// The player left the server; the session ends.
    Left,
    /// Send the number of players.
    PlayerCount(i32),
    /// Send the lobby list.
    Listing,
    /// The name is taken; send an error.
    NameTaken,
    /// The lobby was created and entered into the directory.
    Created(Lobby),
    /// Join the lobby at the given place of the directory.
    Join { place: usize, spectate: bool },
    /// There is no lobby of that name; the join failed.
    NoSuchLobby,
    /// Send the player's statistics.
    Stats,
    /// Nothing to do.
    Ignored,
}

/// What the session has to do after a message in the waiting room of a game
/// lobby.
#[derive(Clone, Copy, Debug, PartialEq, Eq, Structural)]
pub enum LobbyAction {
    /// The player went back to the server-wide lobby; `empty` says whether
    /// the game lobby is now empty and has to be removed.
    Quit { empty: bool },
    /// The player left the server; `empty` as for `Quit`.
    Disconnected { empty: bool },
    /// Send lobby information and roster.
    Info,
    /// Readiness changed; send the roster.
    Roster,
    /// Send the player's statistics.
    Stats,
    /// The player asked to start; `started` says whether the round began.
    Started { started: bool },
    /// A round is running; go on to the game.
    Proceed,
    /// Nothing to do.
    Ignored,
}

/// What the session has to do after a message of a spectator.
#[derive(Clone, Copy, Debug, PartialEq, Eq, Structural)]
pub enum SpectatorAction {
    /// The spectator went back to the server-wide lobby.
    Left,
    /// The spectator left the server.
    Disconnected,
    /// Send the player's statistics.
    Stats,
    /// Remind the spectator that spectators only watch.
    Reminder,
}

/// The number that stands for a player state on the wire.
pub open spec fn player_state_code(state: PlayerState) -> int {
    match state {
        PlayerState::Ready => 0,
        PlayerState::Folded => 1,
        PlayerState::AllIn => 2,
        PlayerState::Checked => 3,
        PlayerState::Called => 4,
        PlayerState::InLobby => 5,
        PlayerState::InServer => 6,
        PlayerState::InGame => 7,
        PlayerState::Raised => 8,
        PlayerState::LoggingIn => 8,
        PlayerState::Spectator => 9,
    }
}

/// Whether a player in the state takes part in a hand.
pub open spec fn in_hand(state: PlayerState) -> bool {
    match state {
        PlayerState::InGame => true,
        PlayerState::Folded => true,
        PlayerState::AllIn => true,
        PlayerState::Checked => true,
        PlayerState::Called => true,
        PlayerState::Raised => true,
        _ => false,
    }
}

/// The state of a player whose connection was closed: folded where the
/// player took part in a hand, back in the lobby otherwise.
pub open spec fn state_after_close(state: PlayerState) -> PlayerState {
    if in_hand(state) {
        PlayerState::Folded
    } else {
        PlayerState::InLobby
    }
}

/// Whether players can take a seat in a lobby in the phase: not while a
/// round runs.
pub open spec fn takes_players(state: GameState) -> bool {
    state == GameState::Joinable || state == GameState::GameLobbyFull
}

/// Calls `uuid::Uuid::new_v4` and writes the identifier with `to_string`,
/// which gives the hyphenated form of 36 characters. The identifier is
/// random; nothing else is claimed of it.
#[verifier::external_body]
fn new_player_id() -> (id: String)
    ensures
        id@.len() == 36,
{
    uuid::Uuid::new_v4().to_string()
}

impl PlayerState {
    /// The number that stands for the state on the wire.
    pub fn code(self) -> (code: i32)
        ensures
            code == player_state_code(self),
    {
        match self {
            PlayerState::Ready => 0,
            PlayerState::Folded => 1,
            PlayerState::AllIn => 2,
            PlayerState::Checked => 3,
            PlayerState::Called => 4,
            PlayerState::InLobby => 5,
            PlayerState::InServer => 6,
            PlayerState::InGame => 7,
            PlayerState::Raised => 8,
            PlayerState::LoggingIn => 8,
            PlayerState::Spectator => 9,
        }
    }
}

impl PlayerView {
    /// A player who has connected and not logged in yet.
    pub open spec fn connecting() -> PlayerView {
        PlayerView {
            name: Seq::empty(),
            id: Seq::empty(),
            hand: Seq::empty(),
            wallet: 0,
            state: PlayerState::LoggingIn,
            current_bet: 0,
            ready: false,
            games_played: 0,
            games_won: 0,
            disconnected: false,
        }
    }

    /// The player after logging in under the name with the identifier and
    /// the wallet of the account.
    pub open spec fn logged_in(self, name: Seq<char>, id: Seq<char>, wallet: int) -> PlayerView {
        PlayerView { name, id, wallet, state: PlayerState::InServer, ..self }
    }
}

impl LobbyView {
    /// The lobby after a player asked to start the round: one start request
    /// less is owed; when none is owed the round begins with the deck in
    /// the order `shuffled`; and the player is in the game.
    pub open spec fn after_start_request(self, name: Seq<char>, shuffled: Seq<i32>) -> LobbyView {
        let l = LobbyView { turns_remaining: self.turns_remaining - 1, ..self };
        let begun = if l.turns_remaining == 0 {
            l.begin_round(shuffled)
        } else {
            l
        };
        begun.change_named(name, |p: PlayerView| p.with_state(PlayerState::InGame))
    }
}

impl Player {
    /// A player who has connected and not logged in yet.
    pub fn new() -> (player: Player)
        ensures
            player@ == PlayerView::connecting(),
    {
        Player {
            name: String::new(),
            id: String::new(),
            hand: Vec::new(),
            wallet: 0,
            state: PlayerState::LoggingIn,
            current_bet: 0,
            ready: false,
            games_played: 0,
            games_won: 0,
            disconnected: false,
        }
    }

    /// Turns what arrived from the connection into the text that the
    /// session works on: the text of a text message, `Error` for a message
    /// that is no text, `Disconnect` when the connection was closed or
    /// reading failed. When the connection was closed, a player in a hand
    /// has folded and any other player is back in the lobby.
    pub fn get_player_input(&mut self, frame: Frame) -> (input: String)
        ensures
            match frame {
                Frame::Closed => input@ == "Disconnect"@ && final(self)@ == old(self)@.with_state(
                    state_after_close(old(self)@.state),
                ),
                Frame::Text(text) => input@ == text@ && final(self)@ == old(self)@,
                Frame::Binary => input@ == "Error"@ && final(self)@ == old(self)@,
                Frame::Failed => input@ == "Disconnect"@ && final(self)@ == old(self)@,
            },
    {
        match frame {
            Frame::Closed => {
                self.state = match self.state {
                    PlayerState::InGame => PlayerState::Folded,
                    PlayerState::Folded => PlayerState::Folded,
                    PlayerState::AllIn => PlayerState::Folded,
                    PlayerState::Checked => PlayerState::Folded,
                    PlayerState::Called => PlayerState::Folded,
                    PlayerState::Raised => PlayerState::Folded,
                    _ => PlayerState::InLobby,
                };
                "Disconnect".to_string()
            },
            Frame::Text(text) => text,
            Frame::Binary => "Error".to_string(),
            Frame::Failed => "Disconnect".to_string(),
        }
    }

    /// Joins a lobby, as a spectator or as a player. A spectator is always
    /// taken. A player is taken unless a round is running or the lobby is
    /// at capacity. Returns `SUCCESS` or `FAILED`.
    pub fn player_join_lobby(&mut self, lobby: &mut Lobby, spectate: bool) -> (result: i32)
        ensures
            spectate ==> result == SUCCESS && final(self)@ == old(self)@.with_state(
                PlayerState::Spectator,
            ) && final(lobby)@ == (LobbyView {
                spectators: old(lobby)@.spectators.push(final(self)@),
                ..old(lobby)@
            }),
            !spectate ==> final(self)@ == old(self)@ && if takes_players(old(lobby)@.game_state)
                && old(lobby)@.current_player_count < old(lobby)@.max_player_count {
                result == SUCCESS && final(lobby)@ == old(lobby)@.seat_player(old(self)@)
            } else {
                result == FAILED && final(lobby)@ == old(lobby)@
            },
            old(lobby)@.wf() ==> final(lobby)@.wf(),
    {
        if spectate {
            self.state = PlayerState::Spectator;
            lobby.add_spectator(self.clone());
            SUCCESS
        } else {
            match lobby.game_state {
                GameState::Joinable => {},
                GameState::GameLobbyFull => {},
                _ => {
                    return FAILED;
                },
            }
            if lobby.add_player(self.clone()) {
                SUCCESS
            } else {
                FAILED
            }
        }
    }
}

impl LobbyView {
    /// Whether a request to start the round can be taken: the count of the
    /// requests owed can go down, and where this is the last request owed
    /// there is a seat, the seat count is in order and the first bettor can
    /// move on.
    pub open spec fn can_take_start_request(self) -> bool {
        self.turns_remaining > i32::MIN && (self.turns_remaining == 1 ==> self.wf()
            && self.current_player_count > 0 && 0 <= self.first_betting_player < i32::MAX)
    }
}

impl Lobby {
    /// Whether a request to start the round can be taken.
    pub fn can_start_game(&self) -> (ok: bool)
        ensures
            ok == self@.can_take_start_request(),
    {
        if self.turns_remaining == i32::MIN {
            return false;
        }
        if self.turns_remaining != 1 {
            return true;
        }
        let max: i32 = match self.game_type {
            GameType::FiveCardDraw => 5,
            GameType::SevenCardStud => 7,
            GameType::TexasHoldEm => 10,
            GameType::NotSet => 5,
        };
        self.current_player_count > 0 && self.players.len() <= 10 && self.current_player_count as usize
            == self.players.len() && self.max_player_count == max && self.current_player_count
            <= self.max_player_count && 0 <= self.first_betting_player && self.first_betting_player
            < i32::MAX
    }

    /// A player asks to start the round. One start request less is owed;
    /// when none is owed the round is set up. The player is in the game.
    /// Says whether the round was set up.
    pub fn start_game(&mut self, player_name: &str) -> (started: bool)
        requires
            old(self)@.can_take_start_request(),
        ensures
            started == (old(self)@.turns_remaining == 1),
            final(self)@ == old(self)@.after_start_request(player_name@, final(self)@.deck.cards),
            final(self)@.deck.cards.to_multiset() == old(self)@.deck.cards.to_multiset(),
            old(self)@.deck.dealable() && started ==> final(self)@.deck.dealable(),
            !started ==> final(self)@.deck == old(self)@.deck,
            started ==> final(self)@.within_card_budget(),
    {
        self.turns_remaining -= 1;
        let started = self.turns_remaining == 0;
        if started {
            self.setup_game();
        }
        let ghost begun = self@;
        self.update_player_state(player_name, PlayerState::InGame);
        proof {
            if started {
                let i = crate::player::find_player(begun.players, player_name@);
                crate::player::lemma_find_player(begun.players, player_name@, 0);
                assert(self@ == begun.change_named(
                    player_name@,
                    |p: PlayerView| p.with_state(PlayerState::InGame),
                ));
                if i < begun.players.len() {
                    assert(self@.players == begun.players.update(
                        i,
                        begun.players[i].with_state(PlayerState::InGame),
                    ));
                } else {
                    assert(self@.players == begun.players);
                }
                crate::budget::lemma_cards_owed_same_hands(begun.players, self@.players);
            }
        }
        started
    }
}

/// One step of the login handshake. `account` is what the account store
/// answered to the login or registration that `message` asks for. On
/// success the player carries the account's name, identifier and wallet
/// (1000 where the store gave none, and for a new account) and is seated in
/// the server-wide lobby.
pub fn handle_login_phase(
    player: &mut Player,
    server_lobby: &mut Lobby,
    message: &ClientMessage,
    account: &AccountReply,
) -> (step: LoginStep)
    ensures
        match *message {
            ClientMessage::Login { username } => match *account {
                AccountReply::Found { id, wallet } => {
                    &&& final(player)@ == old(player)@.logged_in(
                        username@,
                        id@,
                        match wallet {
                            Some(w) => w as int,
                            None => INITIAL_WALLET as int,
                        },
                    )
                    &&& final(server_lobby)@ == old(server_lobby)@.seat_player(final(player)@)
                    &&& step == if old(server_lobby)@.current_player_count < old(server_lobby)@.max_player_count {
                        LoginStep::LoggedIn
                    } else {
                        LoginStep::ServerFull
                    }
                },
                _ => step == LoginStep::LoginFailed && final(player)@ == old(player)@
                    && final(server_lobby)@ == old(server_lobby)@,
            },
            ClientMessage::Register { username } => match *account {
                AccountReply::Registered => {
                    &&& final(player)@ == old(player)@.logged_in(
                        username@,
                        final(player)@.id,
                        INITIAL_WALLET as int,
                    )
                    &&& final(player)@.id.len() == 36
                    &&& final(server_lobby)@ == old(server_lobby)@.seat_player(final(player)@)
                    &&& step == if old(server_lobby)@.current_player_count < old(server_lobby)@.max_player_count {
                        LoginStep::LoggedIn
                    } else {
                        LoginStep::ServerFull
                    }
                },
                _ => step == LoginStep::RegistrationFailed && final(player)@ == old(player)@
                    && final(server_lobby)@ == old(server_lobby)@,
            },
            ClientMessage::Quit => step == LoginStep::Goodbye && final(player)@ == old(player)@
                && final(server_lobby)@ == old(server_lobby)@,
            _ => step == LoginStep::Ignored && final(player)@ == old(player)@
                && final(server_lobby)@ == old(server_lobby)@,
        },
{
    match message {
        ClientMessage::Login { username } => {
            match account {
                AccountReply::Found { id, wallet } => {
                    player.name = username.clone();
                    player.id = id.clone();
                    player.wallet = match wallet {
                        Some(w) => *w,
                        None => INITIAL_WALLET,
                    };
                    player.state = PlayerState::InServer;
                    if server_lobby.add_player(player.clone()) {
                        LoginStep::LoggedIn
                    } else {
                        LoginStep::ServerFull
                    }
                },
                _ => LoginStep::LoginFailed,
            }
        },
        ClientMessage::Register { username } => {
            match account {
                AccountReply::Registered => {
                    player.name = username.clone();
                    player.id = new_player_id();
                    player.wallet = INITIAL_WALLET;
                    player.state = PlayerState::InServer;
                    if server_lobby.add_player(player.clone()) {
                        LoginStep::LoggedIn
                    } else {
                        LoginStep::ServerFull
                    }
                },
                _ => LoginStep::RegistrationFailed,
            }
        },
        ClientMessage::Quit => LoginStep::Goodbye,
        _ => LoginStep::Ignored,
    }
}

/// One message of a player in the server-wide lobby. Creating a lobby under
/// a name that the directory holds fails; else the new lobby is entered
/// into the directory and handed out. Joining asks for the lobby's place in
/// the directory.
pub fn handle_server_lobby(
    server_lobby: &mut Lobby,
    player_name: &str,
    message: &ClientMessage,
) -> (action: ServerLobbyAction)
    requires
        old(server_lobby)@.players.len() <= i32::MAX,
    ensures
        match *message {
            ClientMessage::Disconnect => action is Left
                && final(server_lobby)@ == old(server_lobby)@.leave(player_name@),
            ClientMessage::ShowPlayers => action == ServerLobbyAction::PlayerCount(
                old(server_lobby).current_player_count,
            ) && final(server_lobby)@ == old(server_lobby)@,
            ClientMessage::ShowLobbies => action is Listing
                && final(server_lobby)@ == old(server_lobby)@,
            ClientMessage::CreateLobby { lobby_name, game_type } => if find_entry(
                old(server_lobby)@.directory,
                lobby_name@,
            ) < old(server_lobby)@.directory.len() {
                action is NameTaken && final(server_lobby)@ == old(server_lobby)@
            } else {
                &&& action matches ServerLobbyAction::Created(lobby) && lobby@ == LobbyView::fresh(
                    game_type_of_code(game_type as int),
                    lobby_name@,
                )
                &&& final(server_lobby)@ == (LobbyView {
                    directory: old(server_lobby)@.directory.push(
                        entry_of(LobbyView::fresh(game_type_of_code(game_type as int), lobby_name@)),
                    ),
                    ..old(server_lobby)@
                })
            },
            ClientMessage::JoinLobby { lobby_name, spectate } => final(server_lobby)@ == old(
                server_lobby,
            )@ && if find_entry(old(server_lobby)@.directory, lobby_name@) < old(
                server_lobby,
            )@.directory.len() {
                action == (ServerLobbyAction::Join {
                    place: find_entry(old(server_lobby)@.directory, lobby_name@) as usize,
                    spectate,
                })
            } else {
                action is NoSuchLobby
            },
            ClientMessage::ShowStats => action is Stats && final(server_lobby)@ == old(server_lobby)@,
            _ => action is Ignored && final(server_lobby)@ == old(server_lobby)@,
        },
        names_unique(old(server_lobby)@.directory) ==> names_unique(final(server_lobby)@.directory),
{
    match message {
        ClientMessage::Disconnect => {
            server_lobby.remove_player(player_name.to_string());
            ServerLobbyAction::Left
        },
        ClientMessage::ShowPlayers => ServerLobbyAction::PlayerCount(server_lobby.get_player_count()),
        ClientMessage::ShowLobbies => ServerLobbyAction::Listing,
        ClientMessage::CreateLobby { lobby_name, game_type } => {
            if server_lobby.lobby_exists(lobby_name.clone()) {
                ServerLobbyAction::NameTaken
            } else {
                let new_lobby = Lobby::new(GameType::from_code(*game_type), lobby_name.clone());
                server_lobby.add_lobby(&new_lobby);
                ServerLobbyAction::Created(new_lobby)
            }
        },
        ClientMessage::JoinLobby { lobby_name, spectate } => {
            match server_lobby.get_lobby(lobby_name.clone()) {
                Some(place) => ServerLobbyAction::Join { place, spectate: *spectate },
                None => ServerLobbyAction::NoSuchLobby,
            }
        },
        ClientMessage::ShowStats => ServerLobbyAction::Stats,
        _ => ServerLobbyAction::Ignored,
    }
}

/// One message of a seated player while no round runs in the game lobby.
pub fn handle_lobby_message(
    lobby: &mut Lobby,
    player_name: &str,
    message: &ClientMessage,
) -> (action: LobbyAction)
    requires
        old(lobby)@.players.len() <= i32::MAX,
        *message is StartGame ==> old(lobby)@.can_take_start_request(),
    ensures
        match *message {
            ClientMessage::Quit => action == (LobbyAction::Quit {
                empty: final(lobby)@.players.len() == 0,
            }) && final(lobby)@ == old(lobby)@.leave(player_name@),
            ClientMessage::Disconnect => action == (LobbyAction::Disconnected {
                empty: final(lobby)@.players.len() == 0,
            }) && final(lobby)@ == old(lobby)@.leave(player_name@),
            ClientMessage::ShowLobbyInfo => action == LobbyAction::Info && final(lobby)@ == old(lobby)@,
            ClientMessage::Ready => action == LobbyAction::Roster
                && final(lobby)@ == old(lobby)@.change_named(player_name@,
                |p: PlayerView| p.with_ready(!p.ready)),
            ClientMessage::ShowStats => action == LobbyAction::Stats && final(lobby)@ == old(lobby)@,
            ClientMessage::StartGame => action == (LobbyAction::Started {
                started: old(lobby)@.turns_remaining == 1,
            }) && final(lobby)@ == old(lobby)@.after_start_request(
                player_name@,
                final(lobby)@.deck.cards,
            ) && final(lobby)@.deck.cards.to_multiset() == old(lobby)@.deck.cards.to_multiset(),
            _ => final(lobby)@ == old(lobby)@ && action == if old(lobby)@.game_state
                != GameState::Joinable {
                LobbyAction::Proceed
            } else {
                LobbyAction::Ignored
            },
        },
{
    match message {
        ClientMessage::Quit => {
            let status = lobby.remove_player(player_name.to_string());
            LobbyAction::Quit { empty: status == GAME_LOBBY_EMPTY }
        },
        ClientMessage::Disconnect => {
            let status = lobby.remove_player(player_name.to_string());
            LobbyAction::Disconnected { empty: status == GAME_LOBBY_EMPTY }
        },
        ClientMessage::ShowLobbyInfo => LobbyAction::Info,
        ClientMessage::Ready => {
            lobby.check_ready(player_name.to_string());
            LobbyAction::Roster
        },
        ClientMessage::ShowStats => LobbyAction::Stats,
        ClientMessage::StartGame => {
            let started = lobby.start_game(player_name);
            LobbyAction::Started { started }
        },
        _ => {
            match lobby.game_state {
                GameState::Joinable => LobbyAction::Ignored,
                _ => LobbyAction::Proceed,
            }
        },
    }
}

/// One message of a spectator. Spectators only watch: they can leave, and
/// ask for their statistics.
pub fn join_as_spectator(
    lobby: &mut Lobby,
    player_name: &str,
    message: &ClientMessage,
) -> (action: SpectatorAction)
    ensures
        match *message {
            ClientMessage::Quit => action == SpectatorAction::Left && final(lobby)@ == (LobbyView {
                spectators: without_name(old(lobby)@.spectators, player_name@),
                ..old(lobby)@
            }),
            ClientMessage::Disconnect => action == SpectatorAction::Disconnected && final(lobby)@
                == (LobbyView {
                spectators: without_name(old(lobby)@.spectators, player_name@),
                ..old(lobby)@
            }),
            ClientMessage::ShowStats => action == SpectatorAction::Stats && final(lobby)@ == old(lobby)@,
            _ => action == SpectatorAction::Reminder && final(lobby)@ == old(lobby)@,
        },
{
    match message {
        ClientMessage::Quit => {
            lobby.remove_spectator(player_name.to_string());
            SpectatorAction::Left
        },
        ClientMessage::Disconnect => {
            lobby.remove_spectator(player_name.to_string());
            SpectatorAction::Disconnected
        },
        ClientMessage::ShowStats => SpectatorAction::Stats,
        _ => SpectatorAction::Reminder,
    }
}

} // verus!
