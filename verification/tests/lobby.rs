use poker_server::deck::Deck;
use poker_server::directory::{game_type_label, status_label};
use poker_server::lobby::{GameState, GameType, Lobby};
use poker_server::player::{Player, PlayerState};
use poker_server::rounds::{
    five_card_can_step, round_in_order, round_is_running, seven_card_can_step,
    texas_holdem_can_step,
};

fn player(name: &str, wallet: i32) -> Player {
    Player {
        name: name.to_string(),
        id: format!("id-{}", name),
        hand: Vec::new(),
        wallet,
        state: PlayerState::InServer,
        current_bet: 0,
        ready: false,
        games_played: 0,
        games_won: 0,
        disconnected: false,
    }
}

fn lobby_with(game_type: GameType, seats: &[(&str, i32)]) -> Lobby {
    let mut lobby = Lobby::new(game_type, "room".to_string());
    for (name, wallet) in seats {
        assert!(lobby.add_player(player(name, *wallet)));
    }
    lobby
}

#[test]
fn new_lobby_is_empty_and_joinable() {
    let lobby = Lobby::new(GameType::FiveCardDraw, "Table 1".to_string());
    assert_eq!(lobby.name, "Table 1");
    assert!(lobby.players.is_empty());
    assert!(lobby.spectators.is_empty());
    assert!(lobby.lobby_names_and_status.is_empty());
    assert_eq!(lobby.pot, 0);
    assert_eq!(lobby.current_player_count, 0);
    assert_eq!(lobby.game_state, GameState::Joinable);
    assert_eq!(lobby.first_betting_player, 0);
    assert_eq!(lobby.current_max_bet, 0);
    assert!(lobby.community_cards.is_empty());
    assert_eq!(lobby.current_player_turn, "");
    assert_eq!(lobby.current_player_index, 0);
    assert_eq!(lobby.turns_remaining, 0);
    assert_eq!(lobby.deck.cards, (0..52).collect::<Vec<i32>>());
    assert_eq!(lobby.deck.next_card_index, 0);
}

#[test]
fn seat_limit_depends_on_the_variant() {
    assert_eq!(Lobby::new(GameType::FiveCardDraw, String::new()).max_player_count, 5);
    assert_eq!(Lobby::new(GameType::SevenCardStud, String::new()).max_player_count, 7);
    assert_eq!(Lobby::new(GameType::TexasHoldEm, String::new()).max_player_count, 10);
    assert_eq!(Lobby::new(GameType::NotSet, String::new()).max_player_count, 5);
}

#[test]
fn a_seated_player_is_in_the_lobby() {
    let mut lobby = Lobby::new(GameType::SevenCardStud, "room".to_string());
    assert!(lobby.add_player(player("A", 7)));
    assert_eq!(lobby.players.len(), 1);
    assert_eq!(lobby.players[0].state, PlayerState::InLobby);
    assert_eq!(lobby.players[0].wallet, 7);
    assert_eq!(lobby.get_player_count(), 1);
    assert_eq!(lobby.game_state, GameState::Joinable);
}

#[test]
fn the_player_count_can_be_moved_by_hand() {
    let mut lobby = lobby_with(GameType::FiveCardDraw, &[("A", 1)]);
    lobby.increment_player_count();
    assert_eq!(lobby.get_player_count(), 2);
    assert_eq!(lobby.players.len(), 1);
    lobby.decrement_player_count();
    lobby.decrement_player_count();
    assert_eq!(lobby.get_player_count(), 0);
    assert_eq!(lobby.players.len(), 1);
}

#[test]
fn spectators_take_no_seat() {
    let mut lobby = lobby_with(GameType::FiveCardDraw, &[("A", 1)]);
    lobby.add_spectator(player("S", 0));
    lobby.add_spectator(player("T", 0));
    assert_eq!(lobby.get_player_count(), 1);
    assert_eq!(lobby.spectators.len(), 2);
    assert!(!lobby.remove_spectator("A".to_string()));
    assert!(lobby.remove_spectator("S".to_string()));
    assert_eq!(lobby.spectators.len(), 1);
    assert_eq!(lobby.spectators[0].name, "T");
    assert_eq!(lobby.turns_remaining, 0);
}

#[test]
fn players_are_found_by_name() {
    let lobby = lobby_with(GameType::FiveCardDraw, &[("A", 1), ("B", 2), ("C", 3)]);
    assert_eq!(lobby.get_player(&"B".to_string()).unwrap().wallet, 2);
    assert_eq!(lobby.get_player_by_name("C").unwrap().id, "id-C");
    assert!(lobby.get_player(&"D".to_string()).is_none());
    assert!(lobby.get_player_by_name("").is_none());
    assert_eq!(
        lobby.get_player_names_and_status(),
        vec![("A".to_string(), false), ("B".to_string(), false), ("C".to_string(), false)]
    );
}

#[test]
fn readiness_is_toggled_and_counted() {
    let mut lobby = lobby_with(GameType::FiveCardDraw, &[("A", 1), ("B", 2), ("C", 3)]);
    assert_eq!(lobby.check_ready("A".to_string()), (1, 3));
    assert_eq!(lobby.check_ready("C".to_string()), (2, 3));
    assert_eq!(lobby.check_ready("nobody".to_string()), (2, 3));
    assert_eq!(lobby.check_ready("A".to_string()), (1, 3));
    assert!(!lobby.players[0].ready);
    assert!(lobby.players[2].ready);
    lobby.set_player_ready("B", true);
    assert!(lobby.players[1].ready);
    lobby.reset_ready();
    assert!(lobby.players.iter().all(|p| !p.ready));
}

#[test]
fn seats_are_updated_by_name() {
    let mut lobby = lobby_with(GameType::FiveCardDraw, &[("A", 1), ("B", 2)]);
    assert!(lobby.update_player_state("B", PlayerState::InGame));
    assert!(!lobby.update_player_state("Z", PlayerState::InGame));
    assert_eq!(lobby.players[0].state, PlayerState::InLobby);
    assert_eq!(lobby.players[1].state, PlayerState::InGame);
    lobby.update_player_stats("A", 500, 3, 2);
    assert_eq!(lobby.players[0].wallet, 500);
    assert_eq!(lobby.players[0].games_played, 3);
    assert_eq!(lobby.players[0].games_won, 2);
    assert_eq!(lobby.players[1].wallet, 2);
    lobby.update_player_hand("B", vec![1, 2, 3]);
    assert_eq!(lobby.players[1].hand, vec![1, 2, 3]);
    assert!(lobby.players[0].hand.is_empty());
    lobby.change_player_state(PlayerState::Ready);
    assert!(lobby.players.iter().all(|p| p.state == PlayerState::Ready && p.hand.is_empty()));
}

#[test]
fn setting_up_a_round_moves_the_first_bettor_on() {
    let mut lobby = lobby_with(GameType::FiveCardDraw, &[("A", 1), ("B", 2), ("C", 3)]);
    lobby.new_player_join();
    assert_eq!(lobby.turns_remaining, 3);
    lobby.deck.deal();
    lobby.setup_game();
    assert_eq!(lobby.first_betting_player, 1);
    assert_eq!(lobby.current_player_index, 1);
    assert_eq!(lobby.current_player_turn, "B");
    assert_eq!(lobby.game_state, GameState::StartOfRound);
    assert_eq!(lobby.turns_remaining, 3);
    assert_eq!(lobby.deck.next_card_index, 0);
    let mut sorted = lobby.deck.cards.clone();
    sorted.sort();
    assert_eq!(sorted, (0..52).collect::<Vec<i32>>());
    lobby.setup_game();
    lobby.setup_game();
    assert_eq!(lobby.first_betting_player, 0);
    assert_eq!(lobby.current_player_turn, "A");
}

#[test]
fn the_cursor_passes_over_folded_seats() {
    let mut lobby = lobby_with(GameType::FiveCardDraw, &[("A", 1), ("B", 2), ("C", 3), ("D", 4)]);
    lobby.setup_game();
    lobby.game_state = GameState::FirstBettingRound;
    lobby.players[2].state = PlayerState::Folded;
    lobby.players[3].state = PlayerState::AllIn;
    assert_eq!(lobby.current_player_turn, "B");
    lobby.get_next_player(false);
    assert_eq!(lobby.current_player_turn, "D");
    assert_eq!(lobby.current_player_index, 3);
    lobby.get_next_player(false);
    assert_eq!(lobby.current_player_turn, "A");
    lobby.get_next_player(true);
    assert_eq!(lobby.current_player_turn, "B");
    lobby.players[1].state = PlayerState::Folded;
    lobby.get_next_player(true);
    assert_eq!(lobby.current_player_turn, "D");
}

#[test]
fn outside_the_betting_phases_the_cursor_passes_over_all_in_seats() {
    let mut lobby = lobby_with(GameType::FiveCardDraw, &[("A", 1), ("B", 2), ("C", 3), ("D", 4)]);
    lobby.setup_game();
    lobby.game_state = GameState::Draw;
    lobby.players[2].state = PlayerState::Folded;
    lobby.players[3].state = PlayerState::AllIn;
    lobby.get_next_player(false);
    assert_eq!(lobby.current_player_turn, "A");
}

#[test]
fn the_cursor_stops_when_every_seat_is_passed_over() {
    let mut lobby = lobby_with(GameType::FiveCardDraw, &[("A", 1), ("B", 2), ("C", 3)]);
    lobby.setup_game();
    for p in lobby.players.iter_mut() {
        p.state = PlayerState::Folded;
    }
    lobby.get_next_player(false);
    assert_eq!(lobby.current_player_index, 2);
    assert_eq!(lobby.current_player_turn, "C");
}

#[test]
fn the_hand_is_decided_with_one_contender_left() {
    let mut lobby = lobby_with(GameType::FiveCardDraw, &[("A", 1), ("B", 2), ("C", 3)]);
    assert!(!lobby.check_end_game());
    lobby.players[0].state = PlayerState::Folded;
    assert!(!lobby.check_end_game());
    lobby.players[1].disconnected = true;
    assert!(lobby.check_end_game());
    lobby.players[2].state = PlayerState::Folded;
    assert!(lobby.check_end_game());
}

#[test]
fn clearing_bets_zeroes_every_bet_and_the_highest_bet() {
    let mut lobby = lobby_with(GameType::FiveCardDraw, &[("A", 1), ("B", 2)]);
    lobby.players[0].current_bet = 20;
    lobby.players[1].current_bet = 30;
    lobby.current_max_bet = 30;
    lobby.pot = 50;
    lobby.clear_betting();
    assert_eq!(lobby.players[0].current_bet, 0);
    assert_eq!(lobby.players[1].current_bet, 0);
    assert_eq!(lobby.current_max_bet, 0);
    assert_eq!(lobby.pot, 50);
    assert_eq!(lobby.players[1].wallet, 2);
}

#[test]
fn flushing_hands_out_the_counters_and_resets_them() {
    let mut lobby = lobby_with(GameType::FiveCardDraw, &[("A", 10), ("B", 20)]);
    lobby.update_player_stats("A", 990, 1, 0);
    lobby.update_player_stats("B", 1010, 1, 1);
    let records = lobby.update_db();
    assert_eq!(records.len(), 2);
    assert_eq!(records[0].name, "A");
    assert_eq!(records[0].id, "id-A");
    assert_eq!((records[0].games_played, records[0].games_won, records[0].wallet), (1, 0, 990));
    assert_eq!((records[1].games_played, records[1].games_won, records[1].wallet), (1, 1, 1010));
    assert!(lobby.players.iter().all(|p| p.games_played == 0 && p.games_won == 0));
    assert_eq!(lobby.players[1].wallet, 1010);
}

#[test]
fn closing_a_round_resets_the_table() {
    let mut lobby = lobby_with(GameType::TexasHoldEm, &[("A", 10), ("B", 20)]);
    lobby.setup_game();
    lobby.pot = 77;
    lobby.current_max_bet = 5;
    lobby.community_cards = vec![1, 2, 3];
    lobby.deal_card_counter = 4;
    lobby.betting_round_counter = 5;
    lobby.game_state = GameState::UpdateDb;
    for p in lobby.players.iter_mut() {
        p.current_bet = 5;
        p.ready = true;
        p.state = PlayerState::Called;
        p.hand = vec![4, 5];
    }
    let order = lobby.deck.cards.clone();
    lobby.reset_game_for_new_round();
    assert_eq!(lobby.pot, 0);
    assert_eq!(lobby.current_max_bet, 0);
    assert!(lobby.community_cards.is_empty());
    assert_eq!(lobby.game_state, GameState::Joinable);
    assert_eq!(lobby.deal_card_counter, 1);
    assert_eq!(lobby.betting_round_counter, 1);
    assert_eq!(lobby.deck.cards, order);
    for p in lobby.players.iter() {
        assert_eq!(p.current_bet, 0);
        assert!(!p.ready);
        assert_eq!(p.state, PlayerState::InLobby);
        assert!(p.hand.is_empty());
    }
    assert_eq!(lobby.players[0].wallet, 10);
}

#[test]
fn chips_are_checked() {
    let mut lobby = lobby_with(GameType::FiveCardDraw, &[("A", 10), ("B", 20)]);
    assert!(lobby.chips_in_order());
    lobby.pot = 5;
    lobby.players[0].current_bet = 5;
    assert!(lobby.chips_in_order());
    lobby.players[1].current_bet = 1;
    assert!(!lobby.chips_in_order());
    lobby.players[1].current_bet = 0;
    lobby.players[1].wallet = -1;
    assert!(!lobby.chips_in_order());
    lobby.players[1].wallet = i32::MAX - 15;
    assert!(lobby.chips_in_order());
    lobby.players[1].wallet = i32::MAX - 14;
    assert!(!lobby.chips_in_order());
    lobby.players[1].wallet = 0;
    lobby.pot = -1;
    assert!(!lobby.chips_in_order());
}

#[test]
fn seating_is_checked() {
    let mut lobby = lobby_with(GameType::FiveCardDraw, &[("A", 10), ("B", 20)]);
    assert!(lobby.is_seated());
    lobby.current_player_index = 2;
    assert!(!lobby.is_seated());
    lobby.current_player_index = 1;
    lobby.first_betting_player = -1;
    assert!(!lobby.is_seated());
    lobby.first_betting_player = 0;
    lobby.current_player_count = 3;
    assert!(!lobby.is_seated());
    assert!(!Lobby::new(GameType::FiveCardDraw, String::new()).is_seated());
}

#[test]
fn the_deck_is_checked() {
    let mut deck = Deck::new();
    assert!(deck.is_dealable());
    deck.next_card_index = 52;
    assert!(deck.is_dealable());
    deck.next_card_index = 53;
    assert!(!deck.is_dealable());
    deck.next_card_index = 0;
    deck.cards[7] = 52;
    assert!(!deck.is_dealable());
    deck.cards[7] = 7;
    deck.cards.pop();
    assert!(!deck.is_dealable());
}

#[test]
fn steps_are_checked_before_they_are_taken() {
    let mut lobby = lobby_with(GameType::FiveCardDraw, &[("A", 100), ("B", 100)]);
    assert!(!round_is_running(&lobby));
    assert!(five_card_can_step(&lobby));
    lobby.setup_game();
    assert!(round_is_running(&lobby));
    assert!(round_in_order(&lobby));
    assert!(five_card_can_step(&lobby));
    assert!(!seven_card_can_step(&lobby));
    assert!(!texas_holdem_can_step(&lobby));
    lobby.game_state = GameState::Draw;
    assert!(five_card_can_step(&lobby));
    lobby.deck.next_card_index = 42;
    assert!(five_card_can_step(&lobby));
    lobby.deck.next_card_index = 43;
    assert!(!five_card_can_step(&lobby));
    lobby.game_state = GameState::DealCards;
    lobby.deck.next_card_index = 32;
    assert!(five_card_can_step(&lobby));
    lobby.deck.next_card_index = 33;
    assert!(!five_card_can_step(&lobby));
    lobby.deck.next_card_index = 0;
    lobby.turns_remaining = 0;
    assert!(!round_in_order(&lobby));
    assert!(!five_card_can_step(&lobby));
    lobby.turns_remaining = 2;
    lobby.game_state = GameState::Ante;
    assert!(five_card_can_step(&lobby));
    lobby.players[lobby.current_player_index as usize].games_played = i32::MAX;
    assert!(!five_card_can_step(&lobby));
    lobby.players[lobby.current_player_index as usize].games_played = 0;
    lobby.game_state = GameState::Showdown;
    assert!(!five_card_can_step(&lobby));
    lobby.players[0].hand = vec![1, 2, 3, 4, 5];
    lobby.players[1].state = PlayerState::Folded;
    assert!(five_card_can_step(&lobby));
    lobby.players[0].games_won = i32::MAX;
    assert!(!five_card_can_step(&lobby));
    lobby.players[0].games_won = 0;
    lobby.pot = -1;
    assert!(!five_card_can_step(&lobby));
}

#[test]
fn stud_and_holdem_steps_are_checked() {
    let mut stud = lobby_with(GameType::SevenCardStud, &[("A", 100), ("B", 100)]);
    stud.setup_game();
    assert!(seven_card_can_step(&stud));
    stud.game_state = GameState::BringIn;
    stud.deal_card_counter = 2;
    assert!(!seven_card_can_step(&stud));
    stud.players[0].hand = vec![60, 61, 3];
    stud.players[1].hand = vec![62, 63, 4];
    assert!(seven_card_can_step(&stud));
    stud.deal_card_counter = 1;
    assert!(!seven_card_can_step(&stud));
    stud.game_state = GameState::DealCards;
    stud.deck.next_card_index = 38;
    assert!(seven_card_can_step(&stud));
    stud.deck.next_card_index = 39;
    assert!(!seven_card_can_step(&stud));
    stud.deck.next_card_index = 0;
    stud.deal_card_counter = 6;
    assert!(!seven_card_can_step(&stud));
    stud.deal_card_counter = 3;
    assert!(!seven_card_can_step(&stud));
    stud.betting_round_counter = 3;
    assert!(seven_card_can_step(&stud));
    stud.game_state = GameState::BettingRound;
    assert!(!seven_card_can_step(&stud));
    stud.deal_card_counter = 4;
    assert!(seven_card_can_step(&stud));

    let mut holdem = lobby_with(GameType::TexasHoldEm, &[("A", 100), ("B", 100)]);
    holdem.setup_game();
    assert!(texas_holdem_can_step(&holdem));
    holdem.game_state = GameState::Showdown;
    assert!(!texas_holdem_can_step(&holdem));
    holdem.community_cards = vec![1, 2, 3, 4, 5];
    holdem.players[0].hand = vec![6, 7];
    holdem.players[1].hand = vec![8, 9];
    assert!(texas_holdem_can_step(&holdem));
    holdem.game_state = GameState::DealCards;
    holdem.deal_card_counter = 2;
    assert!(!texas_holdem_can_step(&holdem));
    holdem.betting_round_counter = 2;
    assert!(texas_holdem_can_step(&holdem));
    holdem.deck.next_card_index = 48;
    assert!(!texas_holdem_can_step(&holdem));
    holdem.deck.next_card_index = 47;
    assert!(texas_holdem_can_step(&holdem));
    holdem.deal_card_counter = 1;
    holdem.betting_round_counter = 1;
    holdem.deck.next_card_index = 43;
    assert!(texas_holdem_can_step(&holdem));
    holdem.deck.next_card_index = 44;
    assert!(!texas_holdem_can_step(&holdem));
    holdem.deck.next_card_index = 0;
    holdem.players[1].games_played = i32::MAX;
    assert!(!texas_holdem_can_step(&holdem));
}

#[test]
fn the_card_budget_counts_what_the_seats_lack() {
    let mut lobby = lobby_with(GameType::FiveCardDraw, &[("A", 100), ("B", 100), ("C", 100)]);
    lobby.setup_game();
    assert_eq!(lobby.cards_still_owed(), 15);
    assert!(lobby.is_within_card_budget());
    lobby.players[0].hand = vec![1, 2, 3];
    lobby.players[1].hand = vec![1, 2, 3, 4, 5, 6];
    assert_eq!(lobby.cards_still_owed(), 7);
    lobby.game_state = GameState::DealCards;
    lobby.deck.next_card_index = 30;
    assert!(lobby.is_within_card_budget());
    lobby.deck.next_card_index = 31;
    assert!(!lobby.is_within_card_budget());
    lobby.game_state = GameState::Draw;
    lobby.turns_remaining = 3;
    lobby.deck.next_card_index = 37;
    assert!(lobby.is_within_card_budget());
    lobby.deck.next_card_index = 38;
    assert!(!lobby.is_within_card_budget());
    lobby.game_state = GameState::SecondBettingRound;
    assert!(lobby.is_within_card_budget());
}

#[test]
fn lobby_lists_show_status_and_variant() {
    assert_eq!(status_label(GameState::Joinable), "Joinable");
    assert_eq!(status_label(GameState::GameLobbyFull), "Not Joinable");
    assert_eq!(status_label(GameState::Showdown), "Not Joinable");
    assert_eq!(game_type_label(GameType::FiveCardDraw), "5 Card Draw");
    assert_eq!(game_type_label(GameType::SevenCardStud), "7 Card Stud");
    assert_eq!(game_type_label(GameType::TexasHoldEm), "Texas Hold'em");
    assert_eq!(game_type_label(GameType::NotSet), "Unknown");
}

#[test]
fn owed_bets_are_checked_against_the_turns_left() {
    let mut lobby = lobby_with(GameType::FiveCardDraw, &[("A", 100), ("B", 100), ("C", 100)]);
    lobby.setup_game();
    lobby.game_state = GameState::FirstBettingRound;
    for p in lobby.players.iter_mut() {
        p.state = PlayerState::InGame;
    }
    lobby.current_player_index = 0;
    lobby.current_player_turn = "A".to_string();
    lobby.turns_remaining = 3;
    assert!(lobby.no_bet_standing());
    assert!(lobby.bets_are_capped());
    assert!(lobby.bets_fit_turns());
    lobby.current_max_bet = 10;
    lobby.pot = 10;
    lobby.players[0].current_bet = 10;
    assert!(!lobby.no_bet_standing());
    assert!(lobby.bets_fit_turns());
    lobby.turns_remaining = 2;
    assert!(!lobby.bets_fit_turns());
    lobby.players[2].state = PlayerState::AllIn;
    assert!(lobby.bets_fit_turns());
    lobby.turns_remaining = 1;
    assert!(!lobby.bets_fit_turns());
    lobby.players[0].state = PlayerState::Folded;
    assert!(!lobby.bets_fit_turns());
    lobby.players[1].current_bet = 10;
    assert!(lobby.bets_fit_turns());
    lobby.players[1].current_bet = 11;
    assert!(!lobby.bets_are_capped());
    assert!(!round_in_order(&lobby));
}

#[test]
fn game_counters_are_checked_for_room() {
    let mut lobby = lobby_with(GameType::FiveCardDraw, &[("A", 100), ("B", 100)]);
    assert!(lobby.wins_in_order());
    assert!(lobby.plays_in_order(5));
    lobby.players[1].games_played = i32::MAX - 5;
    assert!(lobby.plays_in_order(5));
    assert!(!lobby.plays_in_order(6));
    lobby.players[0].games_won = i32::MAX - 1;
    assert!(lobby.wins_in_order());
    lobby.players[0].games_won = i32::MAX;
    assert!(!lobby.wins_in_order());
    lobby.players[0].games_won = 0;
    lobby.setup_game();
    assert!(five_card_can_step(&lobby));
    lobby.players[1].games_played = i32::MAX - 1;
    assert!(!five_card_can_step(&lobby));
    lobby.players[1].games_played = i32::MAX - 2;
    assert!(five_card_can_step(&lobby));
}
