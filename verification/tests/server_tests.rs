use std::collections::{HashSet, VecDeque};

use tienlen::components::card::Card;
use tienlen::components::deck::Deck;
use tienlen::components::hand::Hand;
use tienlen::components::player::Player;
use tienlen::components::turn::Turn;
use tienlen::messages::error::GameError;
use tienlen::server::{
    check_play, Global, PlayerData, PlayerIterator, PlayerIteratorMut, PlayerMap, RunOutAction,
};

fn fresh_global() -> Global {
    Global {
        deck: Deck::new(),
        table: VecDeque::new(),
        leader_turn: true,
        allow_free_combo: false,
        total_player: 4,
        cur_active_pos: 0,
    }
}

fn player(name: &str, pos: usize, active: bool, cards: &str, key: u64) -> PlayerData {
    PlayerData {
        name: name.to_string(),
        pos,
        active,
        cards: cards.to_string(),
        score: 0,
        user_key: key,
    }
}

#[test]
fn check_play_accepts_a_first_combination() {
    let put = Hand::from_strings(&["3C"]);
    assert_eq!(check_play(&put, true, None, false), Ok(()));
}

#[test]
fn check_play_refuses_a_broken_combination() {
    let put = Hand::from_strings(&["3C", "9H"]);
    assert_eq!(check_play(&put, true, None, false), Err(GameError::WrongCombination));
}

#[test]
fn check_play_refuses_out_of_turn() {
    let put = Hand::from_strings(&["3C"]);
    assert_eq!(check_play(&put, false, None, false), Err(GameError::WrongTurn));
}

#[test]
fn check_play_refuses_another_number_of_cards() {
    let last = Hand::from_strings(&["5D"]);
    let put = Hand::from_strings(&["7S", "7H"]);
    assert_eq!(
        check_play(&put, true, Some(&last), false),
        Err(GameError::WrongCombination)
    );
    assert_eq!(check_play(&put, true, Some(&last), true), Ok(()));
}

#[test]
fn check_play_refuses_weaker_cards() {
    let last = Hand::from_strings(&["9H", "9D"]);
    let weaker = Hand::from_strings(&["9S", "9C"]);
    let stronger = Hand::from_strings(&["TS", "TC"]);
    assert_eq!(
        check_play(&weaker, true, Some(&last), false),
        Err(GameError::InvalidCards)
    );
    assert_eq!(check_play(&stronger, true, Some(&last), false), Ok(()));
}

#[test]
fn play_card_moves_cards_to_the_table() {
    let mut g = fresh_global();
    let mut turn = Turn::new(4);
    let outcome = g.play_card(&mut turn, true, "3C,4D,5H", "3C").unwrap();
    assert_eq!(outcome.table_cards, "3C".to_string());
    assert_eq!(outcome.player_cards, "4D,5H".to_string());
    assert_eq!(outcome.next_player, 1);
    assert_eq!(g.table.len(), 1);
    assert_eq!(g.table[0].cards, vec![Card::from_str("3C").unwrap()]);

    let outcome2 = g.play_card(&mut turn, true, "4D,9S", "4D").unwrap();
    assert_eq!(outcome2.player_cards, "9S".to_string());
    assert_eq!(outcome2.next_player, 2);
    assert_eq!(g.table.len(), 2);
}

#[test]
fn play_card_refusals_change_nothing() {
    let mut g = fresh_global();
    let mut turn = Turn::new(4);
    g.play_card(&mut turn, true, "4D", "4D").unwrap();
    assert_eq!(
        g.play_card(&mut turn, true, "3S,AH", "3S").err(),
        Some(GameError::InvalidCards)
    );
    assert_eq!(
        g.play_card(&mut turn, true, "6S,6H", "6S,6H").err(),
        Some(GameError::WrongCombination)
    );
    assert_eq!(
        g.play_card(&mut turn, false, "AH", "AH").err(),
        Some(GameError::WrongTurn)
    );
    assert_eq!(
        g.play_card(&mut turn, true, "AH,3D", "AH,3D").err(),
        Some(GameError::WrongCombination)
    );
    assert_eq!(g.table.len(), 1);
    assert_eq!(turn.current_active_player(), Some(1));
}

#[test]
fn free_combo_is_used_once() {
    let mut g = fresh_global();
    g.allow_free_combo = true;
    let mut turn = Turn::new(4);
    g.play_card(&mut turn, true, "9D", "9D").unwrap();
    // leading a new round: any combination goes
    g.play_card(&mut turn, true, "3S,3H", "3S,3H").unwrap();
    assert!(!g.allow_free_combo);
    assert_eq!(
        g.play_card(&mut turn, true, "4S", "4S").err(),
        Some(GameError::WrongCombination)
    );
}

#[test]
fn skip_turn_passes_and_a_lone_player_leads() {
    let mut g = fresh_global();
    let mut turn = Turn::new(3);
    assert_eq!(g.skip_turn(&mut turn), Some(1));
    assert!(!g.allow_free_combo);
    assert_eq!(g.skip_turn(&mut turn), Some(2));
    assert!(g.allow_free_combo);
}

#[test]
fn run_out_of_a_leader_plays_the_first_sorted_card() {
    let mut g = fresh_global();
    let mut turn = Turn::new(4);
    match g.run_out(&mut turn, 0, "9H,3S,5D") {
        RunOutAction::AutoPlay { message, player_cards } => {
            assert_eq!(message.cur_player, 0);
            assert_eq!(message.cards, "3S".to_string());
            assert_eq!(message.next_player, 1);
            assert!(!message.run_out_card);
            assert_eq!(player_cards, "5D,9H".to_string());
        }
        _ => panic!("a leader who runs out of time plays a card"),
    }
    assert!(!g.leader_turn);
    assert_eq!(g.cur_active_pos, 1);
    assert_eq!(g.table.len(), 1);
}

#[test]
fn run_out_of_a_follower_passes() {
    let mut g = fresh_global();
    g.leader_turn = false;
    let mut turn = Turn::new(4);
    match g.run_out(&mut turn, 0, "9H") {
        RunOutAction::Skip { next_player } => assert_eq!(next_player, 1),
        _ => panic!("a follower who runs out of time passes"),
    }
    assert_eq!(g.cur_active_pos, 1);
    assert!(!g.leader_turn);
}

#[test]
fn deal_hands_gives_thirteen_distinct_cards_each() {
    let mut g = fresh_global();
    let hands = g.deal_hands(4);
    assert_eq!(hands.len(), 4);
    let mut seen = HashSet::new();
    for text in hands.iter() {
        let h = Hand::from_str(text);
        assert_eq!(h.len(), 13);
        for c in h.cards {
            assert!(seen.insert(c));
        }
    }
    assert_eq!(seen.len(), 52);
    assert_eq!(g.deck.undealt_count(), 0);
    assert_eq!(g.deck.dealt_count(), 52);
}

#[test]
fn new_match_clears_the_table() {
    let mut g = fresh_global();
    let mut turn = Turn::new(4);
    g.play_card(&mut turn, true, "4D", "4D").unwrap();
    g.leader_turn = false;
    g.cur_active_pos = 2;
    g.new_match();
    assert!(g.table.is_empty());
    assert!(g.leader_turn);
    assert_eq!(g.cur_active_pos, 0);
}

#[test]
fn player_map_updates() {
    let mut m = PlayerMap::new();
    m.0.insert(7, player("ann", 0, true, "3C", 7));
    m.0.insert(9, player("bob", 1, false, "4D", 9));
    m.update_cards(&9, "5H,6H".to_string());
    assert_eq!(m.0[&9].cards, "5H,6H".to_string());
    m.update_active_player(1);
    assert!(!m.0[&7].active);
    assert!(m.0[&9].active);
    m.update_score(&7, 3);
    m.update_score(&7, 2);
    assert_eq!(m.0[&7].score, 5);
    assert_eq!(m.0[&9].score, 0);
    m.debug();
}

#[test]
fn players_at_the_table() {
    let mut players = vec![Player::new(0, "ann"), Player::new(1, "bob")];
    players[0].active = false;
    players[1].active = true;
    assert_eq!(players.current_active_player().pos, 1);
    assert!(players.some_player_not_ready());
    players[0].ready = true;
    players[1].ready = true;
    assert!(!players.some_player_not_ready());
}

#[test]
fn player_data_updates() {
    let mut data = vec![player("ann", 0, true, "3C", 7), player("bob", 1, false, "4D", 9)];
    data.update_active_player_cards("9S");
    assert_eq!(data[0].cards, "9S".to_string());
    assert_eq!(data[1].cards, "4D".to_string());
    data.set_next_active(1);
    assert!(!data[0].active);
    assert!(data[1].active);
}

#[test]
fn new_player_is_active_only_at_seat_zero() {
    let p0 = Player::new(0, "ann");
    let p2 = Player::new(2, "cid");
    assert!(p0.active);
    assert!(!p2.active);
    assert_eq!(p2.pos, 2);
    assert_eq!(p2.score, 0);
    assert!(!p2.ready);
    assert_eq!(p2.name(), "cid".to_string());
}
