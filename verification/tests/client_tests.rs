use std::collections::BTreeMap;

use tienlen::client::{
    error_status, existing_player_seat, new_player_seat, play_card, relative_player_slot,
    select_card, spawn_player, sync_main_player_cards, valid_cards_condition, ActiveCards, Ordinal, Seat,
};
use tienlen::components::card::Card;
use tienlen::components::rank::Rank;
use tienlen::components::suit::Suit;
use tienlen::messages::error::GameError;

fn card(s: &str) -> Card {
    Card::from_str(s).unwrap()
}

fn player_cards(names: &[&str]) -> BTreeMap<usize, Card> {
    let mut m = BTreeMap::new();
    for n in names {
        let c = card(n);
        m.insert(c.ordinal(), c);
    }
    m
}

#[test]
fn relative_slots_count_clockwise_from_the_local_player() {
    assert_eq!(relative_player_slot(0, 1), 1);
    assert_eq!(relative_player_slot(0, 3), 3);
    assert_eq!(relative_player_slot(1, 2), 1);
    assert_eq!(relative_player_slot(1, 0), 3);
    assert_eq!(relative_player_slot(2, 3), 1);
    assert_eq!(relative_player_slot(2, 1), 3);
    assert_eq!(relative_player_slot(3, 0), 1);
    assert_eq!(relative_player_slot(3, 2), 3);
}

#[test]
fn active_cards_toggle() {
    let mut a = ActiveCards::default();
    assert!(a.is_empty());
    let c = card("7D");
    a.make_active(&c.ordinal(), &c);
    assert!(a.is_active(&c.ordinal()));
    assert!(!a.is_empty());
    a.make_active(&c.ordinal(), &c);
    assert!(!a.is_active(&c.ordinal()));
    assert!(a.is_empty());
}

#[test]
fn active_cards_list_in_key_order() {
    let mut a = ActiveCards::default();
    for n in ["2H", "3S", "9C"] {
        let c = card(n);
        a.make_active(&c.ordinal(), &c);
    }
    assert_eq!(
        a.keys(),
        vec![card("3S").ordinal(), card("9C").ordinal(), card("2H").ordinal()]
    );
    assert_eq!(a.to_vec(), vec![card("3S"), card("9C"), card("2H")]);
    assert_eq!(a.to_string(), Ok("3S,9C,2H".to_string()));
    a.clear();
    assert!(a.is_empty());
}

#[test]
fn active_cards_to_string_of_nothing_fails() {
    let mut a = ActiveCards::default();
    assert_eq!(a.to_string(), Err("Not have any active card"));
}

#[test]
fn select_card_toggles_the_held_card() {
    let held = player_cards(&["3S", "4S"]);
    let mut a = ActiveCards::default();
    let key = card("4S").ordinal();
    select_card(&mut a, &held, key);
    assert!(a.is_active(&key));
    select_card(&mut a, &held, key);
    assert!(!a.is_active(&key));
}

#[test]
fn play_card_sends_a_combination_and_drops_it_from_the_hand() {
    let mut held = player_cards(&["3S", "3H", "9C"]);
    let mut a = ActiveCards::default();
    select_card(&mut a, &held, card("3H").ordinal());
    select_card(&mut a, &held, card("3S").ordinal());
    assert_eq!(play_card(&mut a, &mut held), Some("3S,3H".to_string()));
    assert!(a.is_empty());
    assert_eq!(held.len(), 1);
    assert!(held.contains_key(&card("9C").ordinal()));
}

#[test]
fn play_card_keeps_everything_when_no_combination() {
    let mut held = player_cards(&["3S", "9C"]);
    let mut a = ActiveCards::default();
    select_card(&mut a, &held, card("3S").ordinal());
    select_card(&mut a, &held, card("9C").ordinal());
    assert_eq!(play_card(&mut a, &mut held), None);
    assert!(!a.is_empty());
    assert_eq!(held.len(), 2);
}

#[test]
fn play_card_with_nothing_selected_sends_nothing() {
    let mut held = player_cards(&["3S"]);
    let mut a = ActiveCards::default();
    assert_eq!(play_card(&mut a, &mut held), None);
    assert_eq!(held.len(), 1);
}

#[test]
fn spawn_player_reads_pairs_of_characters() {
    let mut held = BTreeMap::new();
    spawn_player("3S9CXX2H", &mut held);
    assert_eq!(held.len(), 3);
    assert_eq!(held.get(&card("3S").ordinal()), Some(&card("3S")));
    assert_eq!(held.get(&card("9C").ordinal()), Some(&card("9C")));
    assert_eq!(held.get(&card("2H").ordinal()), Some(&card("2H")));
}

#[test]
fn spawn_player_passes_over_a_lone_last_character() {
    let mut held = player_cards(&["AD"]);
    spawn_player("KSQ", &mut held);
    assert_eq!(held.len(), 2);
    assert!(held.contains_key(&card("KS").ordinal()));
    spawn_player("", &mut held);
    assert_eq!(held.len(), 2);
}

#[test]
fn seats_of_players_already_at_the_table() {
    assert_eq!(existing_player_seat(0, 1), None);
    assert_eq!(existing_player_seat(1, 0), Some(Seat::Right));
    assert_eq!(existing_player_seat(2, 0), Some(Seat::Top));
    assert_eq!(existing_player_seat(2, 1), Some(Seat::Right));
    assert_eq!(existing_player_seat(2, 3), None);
    assert_eq!(existing_player_seat(3, 0), Some(Seat::Left));
    assert_eq!(existing_player_seat(3, 1), Some(Seat::Top));
    assert_eq!(existing_player_seat(3, 2), Some(Seat::Right));
    assert_eq!(existing_player_seat(5, 0), None);
}

#[test]
fn seats_of_new_players_fill_in_order() {
    assert_eq!(new_player_seat(false, false, false, false), Some(Seat::Bottom));
    assert_eq!(new_player_seat(true, false, false, false), Some(Seat::Left));
    assert_eq!(new_player_seat(true, true, false, false), Some(Seat::Top));
    assert_eq!(new_player_seat(true, true, true, false), Some(Seat::Right));
    assert_eq!(new_player_seat(true, true, true, true), None);
    assert_eq!(new_player_seat(true, false, true, false), Some(Seat::Left));
}

#[test]
fn error_status_texts() {
    assert_eq!(error_status(GameError::InvalidCards), "Your cards are week!");
    assert_eq!(
        error_status(GameError::WrongCombination),
        "Your cards are not the same combination"
    );
    assert_eq!(
        error_status(GameError::WrongTurn),
        "Not your turn now! Game bug probably"
    );
    assert_eq!(error_status(GameError::UnknownError), "Unexpected error happend");
}

#[test]
fn ordinal_of_rank_and_suit() {
    let o = Ordinal::new(Rank::Four, Suit::Diamonds);
    assert_eq!(o.get(), Card::new(Rank::Four, Suit::Diamonds).ordinal());
    assert_eq!(o.get(), 28);
}

#[test]
fn valid_cards_need_a_combination() {
    let none: Vec<String> = vec![];
    assert!(!valid_cards_condition(&none));
    let pair = vec!["9S".to_string(), "9D".to_string()];
    assert!(valid_cards_condition(&pair));
    let broken = vec!["9S".to_string(), "TD".to_string()];
    assert!(!valid_cards_condition(&broken));
    let run = vec!["5S".to_string(), "3D".to_string(), "4H".to_string()];
    assert!(valid_cards_condition(&run));
}

#[test]
fn sync_main_player_cards_replaces_the_held_cards() {
    let mut held = player_cards(&["AD", "KD"]);
    sync_main_player_cards("3S,9C", &mut held);
    assert_eq!(held.len(), 2);
    assert_eq!(held.get(&card("3S").ordinal()), Some(&card("3S")));
    assert_eq!(held.get(&card("9C").ordinal()), Some(&card("9C")));
    sync_main_player_cards("", &mut held);
    assert!(held.is_empty());
}
