use poker_server::deal::{bring_in, blinds, deal_cards_7, deal_cards_texas, get_rid_of_x, update_players_hand};
use poker_server::deck::Deck;
use poker_server::games::{betting_round, ClientMessage};
use poker_server::lobby::{GameState, GameType, Lobby, GAME_LOBBY_EMPTY, GAME_LOBBY_NOT_EMPTY};
use poker_server::player::{Player, PlayerState};
use poker_server::rounds::{
    five_card_can_step, five_card_game_state_machine, seven_card_can_step,
    seven_card_game_state_machine, texas_holdem_can_step, texas_holdem_game_state_machine, StepKind,
    StepResult,
};
use poker_server::showdown::showdown;

fn player(name: &str, wallet: i32) -> Player {
    Player {
        name: name.to_string(),
        id: format!("id-{}", name),
        hand: Vec::new(),
        wallet,
        state: PlayerState::InLobby,
        current_bet: 0,
        ready: false,
        games_played: 0,
        games_won: 0,
        disconnected: false,
    }
}

fn lobby_with(game_type: GameType, seats: &[(&str, i32)]) -> Lobby {
    let mut lobby = Lobby::new(game_type, "room".to_string());
    for (name, wallet) in seats {
        assert!(lobby.add_player(player(name, *wallet)));
    }
    lobby
}

fn seat<'a>(lobby: &'a Lobby, name: &str) -> &'a Player {
    lobby.players.iter().find(|p| p.name == name).unwrap()
}

fn betting_lobby(seats: &[(&str, i32)]) -> Lobby {
    let mut lobby = lobby_with(GameType::FiveCardDraw, seats);
    lobby.setup_game();
    lobby.deck = Deck::new();
    lobby.first_betting_player = 0;
    lobby.current_player_index = 0;
    lobby.current_player_turn = lobby.players[0].name.clone();
    lobby.game_state = GameState::FirstBettingRound;
    lobby.turns_remaining = lobby.current_player_count;
    for p in lobby.players.iter_mut() {
        p.hand = vec![0, 1, 2, 3, 4];
        p.state = PlayerState::InGame;
    }
    lobby
}

#[test]
fn draw_round_with_two_players() {
    let mut lobby = lobby_with(GameType::FiveCardDraw, &[("A", 1000), ("B", 1000)]);
    lobby.setup_game();
    lobby.deck = Deck::new();
    assert_eq!(lobby.game_state, GameState::StartOfRound);
    assert_eq!(lobby.current_player_turn, "B");
    let mut records = Vec::new();
    let mut saw_pot_after_ante = false;
    let mut steps = 0;
    loop {
        steps += 1;
        assert!(steps < 200);
        let name = lobby.current_player_turn.clone();
        let input = match lobby.game_state {
            GameState::FirstBettingRound | GameState::SecondBettingRound => Some(ClientMessage::Check),
            GameState::Draw => {
                if name == "A" {
                    Some(ClientMessage::DrawCards { card_indices: vec![0, 1] })
                } else {
                    Some(ClientMessage::DrawCards { card_indices: vec![] })
                }
            }
            _ => None,
        };
        if lobby.game_state == GameState::DealCards && !saw_pot_after_ante {
            saw_pot_after_ante = true;
            assert_eq!(lobby.pot, 20);
            assert_eq!(seat(&lobby, "A").wallet, 990);
            assert_eq!(seat(&lobby, "B").wallet, 990);
        }
        if lobby.game_state == GameState::FirstBettingRound {
            assert_eq!(seat(&lobby, "A").hand.len(), 5);
            assert_eq!(seat(&lobby, "B").hand.len(), 5);
        }
        if lobby.game_state == GameState::Showdown {
            assert_eq!(seat(&lobby, "B").hand, vec![0, 2, 4, 6, 8]);
            assert_eq!(seat(&lobby, "A").hand, vec![10, 11, 5, 7, 9]);
        }
        assert!(five_card_can_step(&lobby));
        match five_card_game_state_machine(&mut lobby, &name, input.as_ref()) {
            StepResult::RoundOver(r) => {
                records = r;
                break;
            }
            StepResult::Advanced => {}
            other => panic!("unexpected step result {:?}", other),
        }
    }
    assert!(saw_pot_after_ante);
    assert_eq!(records.len(), 2);
    let a = records.iter().find(|r| r.name == "A").unwrap();
    let b = records.iter().find(|r| r.name == "B").unwrap();
    assert_eq!((a.games_played, a.games_won, a.wallet), (1, 0, 990));
    assert_eq!((b.games_played, b.games_won, b.wallet), (1, 1, 1010));
    assert_eq!(lobby.game_state, GameState::Joinable);
    assert_eq!(lobby.pot, 0);
    assert_eq!(lobby.current_max_bet, 0);
    assert!(lobby.community_cards.is_empty());
    for p in lobby.players.iter() {
        assert_eq!(p.current_bet, 0);
        assert!(!p.ready);
        assert_eq!(p.games_played, 0);
        assert_eq!(p.games_won, 0);
        assert_eq!(p.state, PlayerState::InLobby);
    }
    assert_eq!(lobby.deck.cards.len(), 52);
}

#[test]
fn all_in_and_folds_in_holdem() {
    let mut lobby = lobby_with(GameType::TexasHoldEm, &[("A", 200), ("B", 1000), ("C", 1000)]);
    lobby.first_betting_player = 2;
    lobby.setup_game();
    assert_eq!(lobby.first_betting_player, 0);
    let step = |lobby: &mut Lobby, input: Option<ClientMessage>| {
        let name = lobby.current_player_turn.clone();
        assert!(texas_holdem_can_step(lobby));
        texas_holdem_game_state_machine(lobby, &name, input.as_ref())
    };
    assert_eq!(step(&mut lobby, None).kind(), StepKind::Advanced);
    assert_eq!(lobby.game_state, GameState::SmallAndBigBlind);
    assert_eq!(step(&mut lobby, None).kind(), StepKind::Advanced);
    assert_eq!(lobby.game_state, GameState::DealCards);
    assert_eq!(lobby.pot, 15);
    assert_eq!(lobby.current_max_bet, 10);
    assert_eq!(seat(&lobby, "B").current_bet, 5);
    assert_eq!(seat(&lobby, "C").current_bet, 10);
    assert_eq!(lobby.current_player_turn, "A");
    assert_eq!(step(&mut lobby, None).kind(), StepKind::Advanced);
    assert_eq!(lobby.game_state, GameState::BettingRound);
    for p in lobby.players.iter() {
        assert_eq!(p.hand.len(), 2);
        assert_eq!(p.games_played, 1);
    }
    assert_eq!(step(&mut lobby, Some(ClientMessage::AllIn)).kind(), StepKind::Advanced);
    assert_eq!(seat(&lobby, "A").state, PlayerState::AllIn);
    assert_eq!(lobby.pot, 215);
    assert_eq!(lobby.current_max_bet, 200);
    assert_eq!(lobby.turns_remaining, 2);
    assert_eq!(lobby.current_player_turn, "B");
    assert_eq!(step(&mut lobby, Some(ClientMessage::Fold)).kind(), StepKind::Advanced);
    assert_eq!(lobby.current_player_turn, "C");
    assert_eq!(step(&mut lobby, Some(ClientMessage::Fold)).kind(), StepKind::Advanced);
    assert_eq!(lobby.game_state, GameState::Showdown);
    assert!(lobby.community_cards.is_empty());
    let name = lobby.current_player_turn.clone();
    assert_eq!(
        texas_holdem_game_state_machine(&mut lobby, &name, None).kind(),
        StepKind::Advanced
    );
    assert_eq!(lobby.game_state, GameState::UpdateDb);
    assert_eq!(seat(&lobby, "A").wallet, 215);
    assert_eq!(seat(&lobby, "A").games_won, 1);
    assert_eq!(seat(&lobby, "B").wallet, 995);
    assert_eq!(seat(&lobby, "C").wallet, 990);
    let name = lobby.current_player_turn.clone();
    match texas_holdem_game_state_machine(&mut lobby, &name, None) {
        StepResult::RoundOver(records) => {
            let a = records.iter().find(|r| r.name == "A").unwrap();
            assert_eq!((a.games_played, a.games_won, a.wallet), (1, 1, 215));
        }
        other => panic!("unexpected step result {:?}", other),
    }
    assert_eq!(lobby.game_state, GameState::Joinable);
    assert!(lobby.community_cards.is_empty());
    assert_eq!(lobby.pot, 0);
}

#[test]
fn stud_bring_in_tiebreak() {
    // Both seats show a 2 as their third card: hearts for the first seat,
    // spades for the second.
    let mut lobby = lobby_with(GameType::SevenCardStud, &[("Hart", 1000), ("Spader", 1000)]);
    lobby.setup_game();
    lobby.players[0].hand = vec![5 + 53, 6 + 53, 1];
    lobby.players[1].hand = vec![7 + 53, 8 + 53, 2 * 13 + 1];
    lobby.game_state = GameState::BringIn;
    bring_in(&mut lobby);
    assert_eq!(seat(&lobby, "Spader").wallet, 985);
    assert_eq!(seat(&lobby, "Spader").current_bet, 15);
    assert_eq!(seat(&lobby, "Spader").state, PlayerState::Called);
    assert_eq!(seat(&lobby, "Hart").wallet, 1000);
    assert_eq!(seat(&lobby, "Hart").current_bet, 0);
    assert_eq!(lobby.pot, 15);
    assert_eq!(lobby.first_betting_player, 1);
    assert_eq!(lobby.current_max_bet, 15);
}

#[test]
fn bring_in_goes_to_the_lowest_rank_with_the_ace_low() {
    let mut lobby =
        lobby_with(GameType::SevenCardStud, &[("K", 100), ("A", 100), ("F", 100), ("Q", 100)]);
    lobby.setup_game();
    lobby.players[0].hand = vec![60, 61, 12];
    lobby.players[1].hand = vec![62, 63, 39];
    lobby.players[2].hand = vec![64, 65, 0];
    lobby.players[2].state = PlayerState::Folded;
    lobby.players[3].hand = vec![66, 67, 11];
    bring_in(&mut lobby);
    assert_eq!(seat(&lobby, "A").wallet, 85);
    assert_eq!(lobby.first_betting_player, 1);
    assert_eq!(seat(&lobby, "F").wallet, 100);
}

#[test]
fn illegal_check_is_rejected() {
    let mut lobby = betting_lobby(&[("A", 100), ("B", 100)]);
    lobby.current_max_bet = 10;
    lobby.pot = 10;
    lobby.players[1].current_bet = 10;
    let verdict = betting_round(&mut lobby, &ClientMessage::Check);
    assert_eq!(verdict, (false, false));
    assert_eq!(lobby.players[0].state, PlayerState::InGame);
    assert_eq!(lobby.players[0].current_bet, 0);
    assert_eq!(lobby.pot, 10);
    let result = five_card_game_state_machine(&mut lobby, "A", Some(&ClientMessage::Check));
    assert_eq!(result.kind(), StepKind::Rejected);
    assert_eq!(lobby.current_player_turn, "A");
    assert_eq!(lobby.current_player_index, 0);
    assert_eq!(lobby.turns_remaining, 2);
    assert_eq!(lobby.game_state, GameState::FirstBettingRound);
    assert_eq!(lobby.pot, 10);
    assert_eq!(lobby.players[0].state, PlayerState::InGame);
}

#[test]
fn raise_resets_turn_counter() {
    let mut lobby = betting_lobby(&[("A", 100), ("B", 100), ("C", 100), ("D", 100)]);
    assert_eq!(lobby.turns_remaining, 4);
    let check = ClientMessage::Check;
    assert_eq!(five_card_game_state_machine(&mut lobby, "A", Some(&check)).kind(), StepKind::Advanced);
    assert_eq!(lobby.turns_remaining, 3);
    assert_eq!(five_card_game_state_machine(&mut lobby, "B", Some(&check)).kind(), StepKind::Advanced);
    assert_eq!(lobby.turns_remaining, 2);
    let raise = ClientMessage::Raise { amount: 20 };
    assert_eq!(five_card_game_state_machine(&mut lobby, "C", Some(&raise)).kind(), StepKind::Advanced);
    assert_eq!(lobby.turns_remaining, 3);
    assert_eq!(lobby.current_max_bet, 20);
    assert_eq!(lobby.pot, 20);
    assert_eq!(seat(&lobby, "C").state, PlayerState::Raised);
    let call = ClientMessage::Call;
    for name in ["D", "A", "B"] {
        assert_eq!(lobby.game_state, GameState::FirstBettingRound);
        assert_eq!(lobby.current_player_turn, name);
        assert_eq!(
            five_card_game_state_machine(&mut lobby, name, Some(&check)).kind(),
            StepKind::Rejected
        );
        assert_eq!(
            five_card_game_state_machine(&mut lobby, name, Some(&call)).kind(),
            StepKind::Advanced
        );
    }
    assert_eq!(lobby.game_state, GameState::Draw);
    assert_eq!(lobby.pot, 80);
    assert_eq!(lobby.current_max_bet, 0);
    assert_eq!(lobby.turns_remaining, 4);
    for p in lobby.players.iter() {
        assert_eq!(p.current_bet, 0);
        assert_eq!(p.wallet, 80);
    }
}

#[test]
fn split_pot() {
    let mut lobby = lobby_with(GameType::FiveCardDraw, &[("A", 10), ("B", 20), ("C", 30)]);
    lobby.setup_game();
    lobby.pot = 100;
    // A and B hold the same ranks in different suits, C folded a better hand.
    lobby.players[0].hand = vec![1, 2, 3, 4, 19];
    lobby.players[1].hand = vec![14, 15, 16, 17, 6];
    lobby.players[2].hand = vec![0, 13, 26, 39, 5];
    lobby.players[2].state = PlayerState::Folded;
    showdown(&mut lobby);
    assert_eq!(seat(&lobby, "A").wallet, 60);
    assert_eq!(seat(&lobby, "B").wallet, 70);
    assert_eq!(seat(&lobby, "C").wallet, 30);
    assert_eq!(seat(&lobby, "A").games_won, 1);
    assert_eq!(seat(&lobby, "B").games_won, 1);
    assert_eq!(seat(&lobby, "C").games_won, 0);
    assert_eq!(lobby.pot, 0);
}

#[test]
fn split_pot_leaves_the_remainder_in_the_pot() {
    let mut lobby = lobby_with(GameType::FiveCardDraw, &[("A", 0), ("B", 0), ("C", 0)]);
    lobby.setup_game();
    lobby.pot = 100;
    lobby.players[0].hand = vec![1, 2, 3, 4, 19];
    lobby.players[1].hand = vec![14, 15, 16, 17, 6];
    lobby.players[2].hand = vec![27, 28, 29, 30, 45];
    showdown(&mut lobby);
    for p in lobby.players.iter() {
        assert_eq!(p.wallet, 33);
        assert_eq!(p.games_won, 1);
    }
    assert_eq!(lobby.pot, 1);
}

#[test]
fn showdown_picks_the_highest_score() {
    let mut lobby = lobby_with(GameType::FiveCardDraw, &[("A", 0), ("B", 0), ("C", 0)]);
    lobby.setup_game();
    lobby.pot = 90;
    lobby.players[0].hand = vec![0, 8, 23, 29, 51];
    lobby.players[1].hand = vec![2, 15, 28, 45, 19];
    lobby.players[2].hand = vec![2, 16, 30, 44, 20];
    showdown(&mut lobby);
    assert_eq!(seat(&lobby, "A").wallet, 0);
    assert_eq!(seat(&lobby, "B").wallet, 90);
    assert_eq!(seat(&lobby, "C").wallet, 0);
    assert_eq!(seat(&lobby, "B").games_won, 1);
}

#[test]
fn showdown_without_contenders_changes_nothing() {
    let mut lobby = lobby_with(GameType::FiveCardDraw, &[("A", 5), ("B", 6)]);
    lobby.setup_game();
    lobby.pot = 40;
    lobby.players[0].state = PlayerState::Folded;
    lobby.players[1].state = PlayerState::Folded;
    showdown(&mut lobby);
    assert_eq!(lobby.pot, 40);
    assert_eq!(seat(&lobby, "A").wallet, 5);
    assert_eq!(seat(&lobby, "B").wallet, 6);
}

#[test]
fn minimum_raise_is_accepted_and_one_less_is_rejected() {
    let mut lobby = betting_lobby(&[("A", 100), ("B", 100)]);
    lobby.current_max_bet = 10;
    lobby.pot = 14;
    lobby.players[0].current_bet = 4;
    lobby.players[1].current_bet = 10;
    assert_eq!(betting_round(&mut lobby, &ClientMessage::Raise { amount: 6 }), (false, false));
    assert_eq!(lobby.pot, 14);
    assert_eq!(lobby.players[0].wallet, 100);
    assert_eq!(betting_round(&mut lobby, &ClientMessage::Raise { amount: 7 }), (true, true));
    assert_eq!(lobby.pot, 21);
    assert_eq!(lobby.players[0].wallet, 93);
    assert_eq!(lobby.players[0].current_bet, 11);
    assert_eq!(lobby.current_max_bet, 11);
    assert_eq!(lobby.players[0].state, PlayerState::Raised);
}

#[test]
fn raise_above_the_wallet_or_not_positive_is_rejected() {
    let mut lobby = betting_lobby(&[("A", 50), ("B", 100)]);
    assert_eq!(betting_round(&mut lobby, &ClientMessage::Raise { amount: 51 }), (false, false));
    assert_eq!(betting_round(&mut lobby, &ClientMessage::Raise { amount: 0 }), (false, false));
    assert_eq!(betting_round(&mut lobby, &ClientMessage::Raise { amount: -5 }), (false, false));
    assert_eq!(betting_round(&mut lobby, &ClientMessage::Raise { amount: 50 }), (true, true));
    assert_eq!(lobby.players[0].state, PlayerState::AllIn);
    assert_eq!(lobby.players[0].wallet, 0);
}

#[test]
fn call_with_the_whole_wallet_is_all_in() {
    let mut lobby = betting_lobby(&[("A", 30), ("B", 100)]);
    lobby.current_max_bet = 30;
    lobby.pot = 30;
    lobby.players[1].current_bet = 30;
    assert_eq!(betting_round(&mut lobby, &ClientMessage::Call), (true, false));
    assert_eq!(lobby.players[0].state, PlayerState::AllIn);
    assert_eq!(lobby.players[0].wallet, 0);
    assert_eq!(lobby.players[0].current_bet, 30);
    assert_eq!(lobby.pot, 60);
}

#[test]
fn call_pays_the_difference() {
    let mut lobby = betting_lobby(&[("A", 31), ("B", 100)]);
    lobby.current_max_bet = 30;
    lobby.pot = 40;
    lobby.players[0].current_bet = 10;
    lobby.players[1].current_bet = 30;
    assert_eq!(betting_round(&mut lobby, &ClientMessage::Call), (true, false));
    assert_eq!(lobby.players[0].state, PlayerState::Called);
    assert_eq!(lobby.players[0].wallet, 11);
    assert_eq!(lobby.players[0].current_bet, 30);
    assert_eq!(lobby.pot, 60);
}

#[test]
fn call_without_funds_is_rejected() {
    let mut lobby = betting_lobby(&[("A", 5), ("B", 100)]);
    lobby.current_max_bet = 30;
    lobby.pot = 30;
    lobby.players[1].current_bet = 30;
    assert_eq!(betting_round(&mut lobby, &ClientMessage::Call), (false, false));
    assert_eq!(lobby.players[0].wallet, 5);
    assert_eq!(lobby.pot, 30);
}

#[test]
fn all_in_below_the_highest_bet_does_not_reset() {
    let mut lobby = betting_lobby(&[("A", 5), ("B", 100)]);
    lobby.current_max_bet = 30;
    lobby.pot = 30;
    lobby.players[1].current_bet = 30;
    assert_eq!(betting_round(&mut lobby, &ClientMessage::AllIn), (true, false));
    assert_eq!(lobby.current_max_bet, 30);
    assert_eq!(lobby.players[0].current_bet, 5);
    assert_eq!(lobby.players[0].wallet, 0);
    assert_eq!(lobby.pot, 35);
}

#[test]
fn other_messages_are_no_betting_moves() {
    let mut lobby = betting_lobby(&[("A", 5), ("B", 100)]);
    assert_eq!(betting_round(&mut lobby, &ClientMessage::Ready), (false, false));
    assert_eq!(betting_round(&mut lobby, &ClientMessage::ShowHand), (false, false));
    assert_eq!(betting_round(&mut lobby, &ClientMessage::Fold), (true, false));
    assert_eq!(lobby.players[0].state, PlayerState::Folded);
}

#[test]
fn actions_of_a_seat_that_is_not_on_turn_are_discarded() {
    let mut lobby = betting_lobby(&[("A", 100), ("B", 100)]);
    let result = five_card_game_state_machine(&mut lobby, "B", Some(&ClientMessage::AllIn));
    assert_eq!(result.kind(), StepKind::NotOnTurn);
    assert_eq!(lobby.pot, 0);
    assert_eq!(seat(&lobby, "B").wallet, 100);
    assert_eq!(lobby.current_player_turn, "A");
}

#[test]
fn betting_waits_for_the_move_of_the_seat_on_turn() {
    let mut lobby = betting_lobby(&[("A", 100), ("B", 100)]);
    let result = five_card_game_state_machine(&mut lobby, "A", None);
    assert_eq!(result.kind(), StepKind::AwaitingInput);
    assert_eq!(lobby.turns_remaining, 2);
    assert_eq!(lobby.current_player_turn, "A");
}

#[test]
fn disconnect_during_a_hand_counts_as_a_fold() {
    let mut lobby = betting_lobby(&[("A", 100), ("B", 100), ("C", 100)]);
    let result = five_card_game_state_machine(&mut lobby, "A", Some(&ClientMessage::Disconnect));
    assert_eq!(result.kind(), StepKind::Advanced);
    assert_eq!(seat(&lobby, "A").state, PlayerState::Folded);
    assert!(seat(&lobby, "A").disconnected);
    assert_eq!(lobby.turns_remaining, 2);
    assert_eq!(lobby.current_player_turn, "B");
}

#[test]
fn ante_folds_a_seat_that_cannot_pay() {
    let mut lobby = lobby_with(GameType::FiveCardDraw, &[("A", 10), ("B", 11), ("C", 500)]);
    lobby.first_betting_player = 2;
    lobby.setup_game();
    lobby.deck = Deck::new();
    for expected in ["A", "A", "B", "C"] {
        assert_eq!(lobby.current_player_turn, expected);
        let name = lobby.current_player_turn.clone();
        assert_eq!(five_card_game_state_machine(&mut lobby, &name, None).kind(), StepKind::Advanced);
    }
    assert_eq!(seat(&lobby, "A").state, PlayerState::Folded);
    assert_eq!(seat(&lobby, "A").wallet, 10);
    assert_eq!(seat(&lobby, "A").games_played, 0);
    assert_eq!(seat(&lobby, "B").wallet, 1);
    assert_eq!(seat(&lobby, "B").games_played, 1);
    assert_eq!(seat(&lobby, "C").wallet, 490);
    assert_eq!(lobby.pot, 20);
    assert_eq!(lobby.game_state, GameState::DealCards);
    assert_eq!(lobby.turns_remaining, 3);
    assert_eq!(lobby.current_player_turn, "B");
}

#[test]
fn ante_with_one_contender_left_goes_to_the_showdown() {
    let mut lobby = lobby_with(GameType::FiveCardDraw, &[("A", 3), ("B", 500)]);
    lobby.first_betting_player = 1;
    lobby.setup_game();
    for _ in 0..3 {
        let name = lobby.current_player_turn.clone();
        five_card_game_state_machine(&mut lobby, &name, None);
    }
    assert_eq!(lobby.game_state, GameState::Showdown);
    let name = lobby.current_player_turn.clone();
    five_card_game_state_machine(&mut lobby, &name, None);
    assert_eq!(lobby.game_state, GameState::UpdateDb);
    assert_eq!(seat(&lobby, "B").wallet, 500);
    assert_eq!(seat(&lobby, "B").games_won, 1);
}

#[test]
fn draw_with_a_position_outside_the_hand_is_rejected() {
    let mut lobby = betting_lobby(&[("A", 100), ("B", 100)]);
    lobby.game_state = GameState::Draw;
    let before = lobby.players[0].hand.clone();
    let bad = ClientMessage::DrawCards { card_indices: vec![0, 5] };
    assert_eq!(five_card_game_state_machine(&mut lobby, "A", Some(&bad)).kind(), StepKind::Rejected);
    assert_eq!(lobby.players[0].hand, before);
    assert_eq!(lobby.deck.next_card_index, 0);
    let many = ClientMessage::DrawCards { card_indices: vec![0, 0, 0, 0, 0, 0] };
    assert_eq!(five_card_game_state_machine(&mut lobby, "A", Some(&many)).kind(), StepKind::Rejected);
    assert_eq!(five_card_game_state_machine(&mut lobby, "A", Some(&ClientMessage::Check)).kind(), StepKind::AwaitingInput);
    let good = ClientMessage::DrawCards { card_indices: vec![4, 0] };
    assert_eq!(five_card_game_state_machine(&mut lobby, "A", Some(&good)).kind(), StepKind::Advanced);
    assert_eq!(lobby.players[0].hand, vec![1, 1, 2, 3, 0]);
    assert_eq!(lobby.deck.next_card_index, 2);
    assert_eq!(lobby.current_player_turn, "B");
    assert_eq!(lobby.turns_remaining, 1);
}

#[test]
fn stud_deals_face_down_and_face_up_cards() {
    let mut lobby = lobby_with(GameType::SevenCardStud, &[("A", 100), ("B", 100), ("C", 100)]);
    lobby.setup_game();
    lobby.deck = Deck::new();
    lobby.players[1].state = PlayerState::Folded;
    deal_cards_7(&mut lobby, 1);
    assert_eq!(lobby.players[0].hand, vec![53, 54, 2]);
    assert!(lobby.players[1].hand.is_empty());
    assert_eq!(lobby.players[2].hand, vec![56, 57, 5]);
    deal_cards_7(&mut lobby, 2);
    assert_eq!(lobby.players[0].hand, vec![53, 54, 2, 6]);
    assert_eq!(lobby.players[2].hand, vec![56, 57, 5, 7]);
    deal_cards_7(&mut lobby, 5);
    assert_eq!(lobby.players[0].hand, vec![53, 54, 2, 6, 8 + 53]);
    assert_eq!(lobby.players[2].hand, vec![56, 57, 5, 7, 9 + 53]);
    assert_eq!(lobby.deck.next_card_index, 10);
    get_rid_of_x(&mut lobby);
    assert_eq!(lobby.players[0].hand, vec![0, 1, 2, 6, 8]);
    assert_eq!(lobby.players[2].hand, vec![3, 4, 5, 7, 9]);
}

#[test]
fn holdem_deals_hole_and_community_cards() {
    let mut lobby = lobby_with(GameType::TexasHoldEm, &[("A", 100), ("B", 100), ("C", 100)]);
    lobby.setup_game();
    lobby.deck = Deck::new();
    lobby.players[0].state = PlayerState::Folded;
    deal_cards_texas(&mut lobby, 1);
    assert!(lobby.players[0].hand.is_empty());
    assert_eq!(lobby.players[1].hand, vec![0, 1]);
    assert_eq!(lobby.players[2].hand, vec![2, 3]);
    for p in lobby.players.iter() {
        assert_eq!(p.games_played, 1);
    }
    deal_cards_texas(&mut lobby, 2);
    assert_eq!(lobby.community_cards, vec![4, 5, 6]);
    deal_cards_texas(&mut lobby, 3);
    deal_cards_texas(&mut lobby, 4);
    assert_eq!(lobby.community_cards, vec![4, 5, 6, 7, 8]);
    assert_eq!(lobby.deck.next_card_index, 9);
    update_players_hand(&mut lobby);
    assert!(lobby.players[0].hand.is_empty());
    // hearts A 2 and 5 6 7 8 9: straight flush, nine high
    assert_eq!(lobby.players[1].hand, vec![8, 8, 8, 0, 0, 0]);
    assert_eq!(lobby.players[2].hand, vec![8, 8, 8, 0, 0, 0]);
}

#[test]
fn blinds_are_posted_by_the_two_seats_after_the_first_bettor() {
    let mut lobby = lobby_with(GameType::TexasHoldEm, &[("A", 100), ("B", 100), ("C", 100)]);
    lobby.setup_game();
    assert_eq!(lobby.first_betting_player, 1);
    blinds(&mut lobby);
    assert_eq!(seat(&lobby, "C").wallet, 95);
    assert_eq!(seat(&lobby, "C").current_bet, 5);
    assert_eq!(seat(&lobby, "A").wallet, 90);
    assert_eq!(seat(&lobby, "A").current_bet, 10);
    assert_eq!(seat(&lobby, "B").wallet, 100);
    assert_eq!(lobby.pot, 15);
    assert_eq!(lobby.current_max_bet, 10);
}

#[test]
fn stud_round_runs_through_five_deals() {
    let mut lobby = lobby_with(GameType::SevenCardStud, &[("A", 1000), ("B", 1000)]);
    lobby.setup_game();
    let mut deals = 0;
    let mut bets = 0;
    let mut steps = 0;
    let records = loop {
        steps += 1;
        assert!(steps < 200);
        let name = lobby.current_player_turn.clone();
        let input = match lobby.game_state {
            GameState::BettingRound => {
                bets += 1;
                if lobby.current_max_bet > 0 {
                    Some(ClientMessage::Call)
                } else {
                    Some(ClientMessage::Check)
                }
            }
            GameState::DealCards => {
                deals += 1;
                None
            }
            _ => None,
        };
        assert!(seven_card_can_step(&lobby));
        match seven_card_game_state_machine(&mut lobby, &name, input.as_ref()) {
            StepResult::RoundOver(r) => break r,
            StepResult::Advanced => {}
            other => panic!("unexpected step result {:?} in {:?}", other, lobby.game_state),
        }
        if lobby.game_state == GameState::Showdown {
            for p in lobby.players.iter() {
                assert_eq!(p.hand.len(), 7);
                assert!(p.hand[0] > 52 && p.hand[1] > 52 && p.hand[6] > 52);
                assert!(p.hand[2..6].iter().all(|c| *c < 52));
            }
        }
    };
    assert_eq!(deals, 5);
    assert_eq!(bets, 10);
    assert_eq!(records.len(), 2);
    let total: i32 = records.iter().map(|r| r.wallet).sum();
    assert_eq!(total, 2000);
    assert_eq!(records.iter().map(|r| r.games_won).sum::<i32>() >= 1, true);
    assert_eq!(lobby.game_state, GameState::Joinable);
}

#[test]
fn holdem_round_runs_through_four_betting_rounds() {
    let mut lobby = lobby_with(GameType::TexasHoldEm, &[("A", 1000), ("B", 1000), ("C", 1000)]);
    lobby.setup_game();
    let mut steps = 0;
    let mut betting_rounds_seen = Vec::new();
    let records = loop {
        steps += 1;
        assert!(steps < 200);
        let name = lobby.current_player_turn.clone();
        let input = match lobby.game_state {
            GameState::BettingRound => {
                if !betting_rounds_seen.contains(&lobby.betting_round_counter) {
                    betting_rounds_seen.push(lobby.betting_round_counter);
                }
                if lobby.current_max_bet > 0 {
                    Some(ClientMessage::Call)
                } else {
                    Some(ClientMessage::Check)
                }
            }
            _ => None,
        };
        if lobby.game_state == GameState::Showdown {
            assert_eq!(lobby.community_cards.len(), 5);
            assert_eq!(lobby.pot, 30);
        }
        assert!(texas_holdem_can_step(&lobby));
        match texas_holdem_game_state_machine(&mut lobby, &name, input.as_ref()) {
            StepResult::RoundOver(r) => break r,
            StepResult::Advanced => {}
            other => panic!("unexpected step result {:?} in {:?}", other, lobby.game_state),
        }
    };
    assert_eq!(betting_rounds_seen, vec![1, 2, 3, 4]);
    assert_eq!(records.iter().map(|r| r.wallet).sum::<i32>() + lobby.pot, 3000);
    assert!(records.iter().all(|r| r.games_played == 1));
    assert_eq!(lobby.game_state, GameState::Joinable);
    assert!(lobby.community_cards.is_empty());
}

#[test]
fn lobby_at_capacity_rejects_and_a_departure_admits_one() {
    let mut lobby = lobby_with(
        GameType::FiveCardDraw,
        &[("A", 1), ("B", 1), ("C", 1), ("D", 1), ("E", 1)],
    );
    assert_eq!(lobby.game_state, GameState::GameLobbyFull);
    assert_eq!(lobby.get_player_count(), 5);
    assert!(!lobby.add_player(player("F", 1)));
    assert_eq!(lobby.get_player_count(), 5);
    assert_eq!(lobby.players.len(), 5);
    assert_eq!(lobby.remove_player("C".to_string()), GAME_LOBBY_NOT_EMPTY);
    assert_eq!(lobby.game_state, GameState::Joinable);
    assert_eq!(lobby.get_player_count(), 4);
    assert!(lobby.add_player(player("F", 1)));
    assert_eq!(lobby.game_state, GameState::GameLobbyFull);
    assert!(!lobby.add_player(player("G", 1)));
    let names: Vec<&str> = lobby.players.iter().map(|p| p.name.as_str()).collect();
    assert_eq!(names, vec!["A", "B", "D", "E", "F"]);
}

#[test]
fn removing_the_last_player_empties_the_lobby() {
    let mut lobby = lobby_with(GameType::TexasHoldEm, &[("A", 1)]);
    assert_eq!(lobby.max_player_count, 10);
    assert_eq!(lobby.remove_player("nobody".to_string()), GAME_LOBBY_NOT_EMPTY);
    assert_eq!(lobby.get_player_count(), 1);
    assert_eq!(lobby.remove_player("A".to_string()), GAME_LOBBY_EMPTY);
    assert_eq!(lobby.get_player_count(), 0);
}

#[test]
fn a_short_stack_posts_what_it_has() {
    let mut lobby = lobby_with(GameType::TexasHoldEm, &[("A", 100), ("B", 100), ("C", 3)]);
    lobby.setup_game();
    assert_eq!(lobby.first_betting_player, 1);
    blinds(&mut lobby);
    assert_eq!(seat(&lobby, "C").wallet, 0);
    assert_eq!(seat(&lobby, "C").current_bet, 3);
    assert_eq!(seat(&lobby, "C").state, PlayerState::AllIn);
    assert_eq!(seat(&lobby, "A").wallet, 90);
    assert_eq!(seat(&lobby, "A").current_bet, 10);
    assert_eq!(seat(&lobby, "A").state, PlayerState::InLobby);
    assert_eq!(lobby.pot, 13);
    assert_eq!(lobby.current_max_bet, 10);
    assert!(lobby.chips_in_order());
    assert!(lobby.bets_are_capped());
}

#[test]
fn a_blind_paid_with_the_last_chips_changes_no_state() {
    let mut lobby = lobby_with(GameType::TexasHoldEm, &[("A", 10), ("B", 100), ("C", 5)]);
    lobby.setup_game();
    blinds(&mut lobby);
    assert_eq!(seat(&lobby, "C").wallet, 0);
    assert_eq!(seat(&lobby, "C").current_bet, 5);
    assert_eq!(seat(&lobby, "C").state, PlayerState::InLobby);
    assert_eq!(seat(&lobby, "A").wallet, 0);
    assert_eq!(seat(&lobby, "A").current_bet, 10);
    assert_eq!(seat(&lobby, "A").state, PlayerState::InLobby);
    assert_eq!(seat(&lobby, "B").wallet, 100);
    assert_eq!(seat(&lobby, "B").state, PlayerState::InLobby);
    assert_eq!(lobby.pot, 15);
    assert_eq!(lobby.current_max_bet, 10);
}

#[test]
fn a_short_big_blind_is_all_in_and_the_highest_bet_is_the_blind() {
    let mut lobby = lobby_with(GameType::TexasHoldEm, &[("A", 9), ("B", 100), ("C", 4)]);
    lobby.setup_game();
    blinds(&mut lobby);
    assert_eq!(seat(&lobby, "C").wallet, 0);
    assert_eq!(seat(&lobby, "C").current_bet, 4);
    assert_eq!(seat(&lobby, "C").state, PlayerState::AllIn);
    assert_eq!(seat(&lobby, "A").wallet, 0);
    assert_eq!(seat(&lobby, "A").current_bet, 9);
    assert_eq!(seat(&lobby, "A").state, PlayerState::AllIn);
    assert_eq!(lobby.pot, 13);
    assert_eq!(lobby.current_max_bet, 10);
    assert!(lobby.chips_in_order());
    assert!(lobby.bets_are_capped());
}

#[test]
fn a_lone_seat_posts_both_blinds() {
    let mut lobby = lobby_with(GameType::TexasHoldEm, &[("A", 100)]);
    lobby.setup_game();
    blinds(&mut lobby);
    assert_eq!(seat(&lobby, "A").wallet, 85);
    assert_eq!(seat(&lobby, "A").current_bet, 15);
    assert_eq!(lobby.pot, 15);
    assert_eq!(lobby.current_max_bet, 10);
    assert!(lobby.chips_in_order());
    assert!(!texas_holdem_can_step(&lobby));
}

#[test]
fn a_short_stack_pays_the_bring_in_with_what_it_has() {
    let mut lobby = lobby_with(GameType::SevenCardStud, &[("A", 10), ("B", 1000)]);
    lobby.setup_game();
    lobby.players[0].hand = vec![60, 61, 1];
    lobby.players[1].hand = vec![62, 63, 12];
    bring_in(&mut lobby);
    assert_eq!(seat(&lobby, "A").wallet, 0);
    assert_eq!(seat(&lobby, "A").current_bet, 10);
    assert_eq!(seat(&lobby, "A").state, PlayerState::AllIn);
    assert_eq!(lobby.pot, 10);
    assert_eq!(lobby.current_max_bet, 10);
    assert_eq!(lobby.first_betting_player, 0);
    assert!(lobby.chips_in_order());
}

#[test]
fn a_bring_in_paid_with_the_last_chips_counts_as_a_call() {
    let mut exact = lobby_with(GameType::SevenCardStud, &[("A", 15), ("B", 16)]);
    exact.setup_game();
    exact.players[0].hand = vec![60, 61, 1];
    exact.players[1].hand = vec![62, 63, 12];
    bring_in(&mut exact);
    assert_eq!(seat(&exact, "A").wallet, 0);
    assert_eq!(seat(&exact, "A").current_bet, 15);
    assert_eq!(seat(&exact, "A").state, PlayerState::Called);
    assert_eq!(seat(&exact, "B").state, PlayerState::InLobby);
    assert_eq!(exact.pot, 15);
    assert_eq!(exact.first_betting_player, 0);
    let mut rich = lobby_with(GameType::SevenCardStud, &[("A", 15), ("B", 16)]);
    rich.setup_game();
    rich.players[0].hand = vec![60, 61, 12];
    rich.players[1].hand = vec![62, 63, 1];
    bring_in(&mut rich);
    assert_eq!(seat(&rich, "B").wallet, 1);
    assert_eq!(seat(&rich, "B").state, PlayerState::Called);
    assert_eq!(seat(&rich, "A").wallet, 15);
}

#[test]
fn a_holdem_round_goes_on_after_a_short_blind() {
    let mut lobby = lobby_with(GameType::TexasHoldEm, &[("A", 1000), ("B", 3), ("C", 1000)]);
    lobby.first_betting_player = 2;
    lobby.setup_game();
    let mut steps = 0;
    let records = loop {
        steps += 1;
        assert!(steps < 200);
        assert!(texas_holdem_can_step(&lobby));
        for p in lobby.players.iter() {
            assert!(p.wallet >= 0);
            assert!(p.current_bet >= 0);
        }
        let name = lobby.current_player_turn.clone();
        let input = match lobby.game_state {
            GameState::BettingRound => {
                if lobby.current_max_bet > 0 {
                    Some(ClientMessage::Call)
                } else {
                    Some(ClientMessage::Check)
                }
            }
            _ => None,
        };
        if lobby.game_state == GameState::DealCards && lobby.deal_card_counter == 1 {
            assert_eq!(seat(&lobby, "B").wallet, 0);
            assert_eq!(seat(&lobby, "B").current_bet, 3);
            assert_eq!(seat(&lobby, "B").state, PlayerState::AllIn);
            assert_eq!(lobby.pot, 13);
        }
        match texas_holdem_game_state_machine(&mut lobby, &name, input.as_ref()) {
            StepResult::RoundOver(r) => break r,
            StepResult::Advanced => {}
            other => panic!("unexpected step result {:?} in {:?}", other, lobby.game_state),
        }
    };
    assert_eq!(records.iter().map(|r| r.wallet).sum::<i32>() + lobby.pot, 2003);
    assert!(records.iter().all(|r| r.wallet >= 0));
}

#[test]
fn a_betting_phase_that_runs_out_of_turns_has_every_bet_matched() {
    let mut lobby = betting_lobby(&[("A", 100), ("B", 100), ("C", 100), ("D", 100)]);
    lobby.players[3].state = PlayerState::Folded;
    let moves = [
        ("A", ClientMessage::Check),
        ("B", ClientMessage::Raise { amount: 10 }),
        ("C", ClientMessage::Raise { amount: 30 }),
        ("A", ClientMessage::Call),
    ];
    for (name, message) in moves.iter() {
        assert!(five_card_can_step(&lobby));
        assert!(lobby.bets_fit_turns());
        assert!(lobby.bets_are_capped());
        assert_eq!(lobby.current_player_turn, *name);
        assert_eq!(
            five_card_game_state_machine(&mut lobby, name, Some(message)).kind(),
            StepKind::Advanced
        );
        assert_eq!(lobby.game_state, GameState::FirstBettingRound);
    }
    assert_eq!(lobby.current_player_turn, "B");
    assert_eq!(lobby.turns_remaining, 2);
    assert_eq!(lobby.current_max_bet, 30);
    assert_eq!(seat(&lobby, "A").current_bet, 30);
    assert_eq!(seat(&lobby, "C").current_bet, 30);
    assert_eq!(seat(&lobby, "B").current_bet, 10);
    assert!(lobby.bets_fit_turns());
    assert_eq!(
        five_card_game_state_machine(&mut lobby, "B", Some(&ClientMessage::Call)).kind(),
        StepKind::Advanced
    );
    assert_eq!(lobby.game_state, GameState::FirstBettingRound);
    assert_eq!(lobby.turns_remaining, 1);
    assert_eq!(lobby.current_player_turn, "C");
    for name in ["A", "B", "C"] {
        assert_eq!(seat(&lobby, name).current_bet, lobby.current_max_bet);
    }
    assert!(five_card_can_step(&lobby));
    assert_eq!(
        five_card_game_state_machine(&mut lobby, "C", Some(&ClientMessage::Call)).kind(),
        StepKind::Advanced
    );
    assert_eq!(lobby.game_state, GameState::Draw);
    assert_eq!(lobby.pot, 90);
    assert_eq!(seat(&lobby, "B").wallet, 70);
}

#[test]
fn dealing_asks_the_deck_only_for_the_seats_that_are_dealt_to() {
    let mut lobby = lobby_with(GameType::SevenCardStud, &[("A", 100), ("B", 100), ("C", 100)]);
    lobby.setup_game();
    lobby.deck = Deck::new();
    lobby.deck.next_card_index = 46;
    lobby.players[1].state = PlayerState::Folded;
    deal_cards_7(&mut lobby, 1);
    assert_eq!(lobby.players[0].hand, vec![46 + 53, 47 + 53, 48]);
    assert!(lobby.players[1].hand.is_empty());
    assert_eq!(lobby.players[2].hand, vec![49 + 53, 50 + 53, 51]);
    assert_eq!(lobby.deck.next_card_index, 52);
    let mut holdem = lobby_with(GameType::TexasHoldEm, &[("A", 100), ("B", 100), ("C", 100)]);
    holdem.setup_game();
    holdem.deck = Deck::new();
    holdem.deck.next_card_index = 50;
    holdem.players[0].state = PlayerState::Folded;
    holdem.players[2].state = PlayerState::Folded;
    deal_cards_texas(&mut holdem, 1);
    assert_eq!(holdem.players[1].hand, vec![50, 51]);
    assert_eq!(holdem.deck.next_card_index, 52);
}

#[test]
fn forced_bets_leave_every_other_seat_alone() {
    let mut lobby = lobby_with(GameType::TexasHoldEm, &[("A", 100), ("B", 100), ("C", 100), ("D", 7)]);
    lobby.first_betting_player = 3;
    lobby.setup_game();
    for p in lobby.players.iter_mut() {
        p.state = PlayerState::InGame;
        p.hand = vec![1, 2];
    }
    blinds(&mut lobby);
    assert_eq!(seat(&lobby, "B").wallet, 95);
    assert_eq!(seat(&lobby, "B").current_bet, 5);
    assert_eq!(seat(&lobby, "C").wallet, 90);
    assert_eq!(seat(&lobby, "C").current_bet, 10);
    for name in ["A", "D"] {
        assert_eq!(seat(&lobby, name).current_bet, 0);
    }
    assert_eq!(seat(&lobby, "A").wallet, 100);
    assert_eq!(seat(&lobby, "D").wallet, 7);
    for p in lobby.players.iter() {
        assert_eq!(p.state, PlayerState::InGame);
        assert_eq!(p.hand, vec![1, 2]);
    }
    assert_eq!(lobby.pot, 15);
    assert_eq!(lobby.current_max_bet, 10);
}
