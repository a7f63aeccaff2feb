use tienlen::components::card::Card;
use tienlen::components::cards::Cards;
use tienlen::components::deck::Deck;
use tienlen::components::hand::Hand;

fn card(s: &str) -> Card {
    Card::from_str(s).unwrap()
}

fn sorted(mut v: Vec<Card>) -> Vec<Card> {
    v.sort_by_key(|c| c.ordinal());
    v
}

fn ordered_deck(names: &[&str]) -> Deck {
    let cards: Vec<Card> = names.iter().map(|s| card(s)).collect();
    let mut d = Deck::from_cards(&cards);
    d.sort_suit_ascending_rank();
    d
}

#[test]
fn new_deck_holds_the_standard_cards() {
    let d = Deck::new();
    assert_eq!(d.undealt_count(), 52);
    assert_eq!(d.dealt_count(), 0);
    assert_eq!(d.count(), 52);
    assert_eq!(sorted(d.cards().to_vec()), sorted(Card::all_cards()));
}

#[test]
fn from_cards_keeps_the_cards() {
    let cards = vec![card("3C"), card("3C"), card("AH")];
    let d = Deck::from_cards(&cards);
    assert_eq!(d.count(), 3);
    assert_eq!(sorted(d.cards().to_vec()), sorted(cards));
}

#[test]
fn sorting_a_deck_orders_by_suit_then_rank() {
    let d = ordered_deck(&["2H", "3C", "4S", "AS"]);
    assert_eq!(d.cards().to_vec(), vec![card("4S"), card("AS"), card("3C"), card("2H")]);
    assert_eq!(d.top_card(), Some(card("2H")));
    assert_eq!(d.bottom_card(), Some(card("4S")));
}

#[test]
fn deal_one_takes_the_top_card() {
    let mut d = ordered_deck(&["2H", "3C", "4S"]);
    assert_eq!(d.deal_one(), Ok(card("2H")));
    assert_eq!(d.deal_one(), Ok(card("3C")));
    assert_eq!(d.dealt_cards().to_vec(), vec![card("2H"), card("3C")]);
    assert_eq!(d.undealt_count(), 1);
    assert_eq!(d.count(), 3);
}

#[test]
fn deal_one_from_an_empty_pile_fails() {
    let mut d = Deck::from_cards(&[]);
    assert_eq!(d.deal_one(), Err("No cards left"));
    assert_eq!(d.top_card(), None);
    assert_eq!(d.bottom_card(), None);
}

#[test]
fn deal_hands_out_from_the_top_as_many_as_there_are() {
    let mut d = ordered_deck(&["2H", "3C", "4S"]);
    assert_eq!(d.deal(2), vec![card("2H"), card("3C")]);
    assert_eq!(d.deal(5), vec![card("4S")]);
    assert_eq!(d.deal(1), vec![]);
    assert_eq!(d.undealt_count(), 0);
    assert_eq!(d.dealt_count(), 3);
}

#[test]
fn deal_str_writes_the_short_names() {
    let mut d = ordered_deck(&["2H", "3C", "4S"]);
    assert_eq!(d.deal_str(2), "2H3C".to_string());
    assert_eq!(d.deal_str(0), String::new());
}

#[test]
fn deal_to_hand_appends_to_the_hand() {
    let mut d = ordered_deck(&["2H", "3C", "4S"]);
    let mut h = Hand::from_strings(&["9D"]);
    assert_eq!(d.deal_to_hand(&mut h, 2), 2);
    assert_eq!(h.cards, vec![card("9D"), card("2H"), card("3C")]);
    assert_eq!(d.deal_to_hand(&mut h, 4), 1);
    assert_eq!(h.len(), 4);
}

#[test]
fn reset_returns_the_deck_to_its_original_order() {
    let mut d = ordered_deck(&["2H", "3C", "4S", "AS", "KD"]);
    let original = d.cards().to_vec();
    d.deal(2);
    d.deal_one().unwrap();
    d.reset();
    assert_eq!(d.cards().to_vec(), original);
    assert_eq!(d.dealt_count(), 0);
}

#[test]
fn shuffles_keep_every_card() {
    let mut d = Deck::new();
    d.deal(10);
    d.shuff();
    assert_eq!(d.undealt_count(), 42);
    assert_eq!(d.dealt_count(), 10);
    d.reset_shuffle();
    assert_eq!(d.undealt_count(), 52);
    assert_eq!(d.dealt_count(), 0);
    assert_eq!(sorted(d.cards().to_vec()), sorted(Card::all_cards()));
}

#[test]
fn cloned_deck_is_the_same() {
    let mut d = ordered_deck(&["2H", "3C", "4S"]);
    d.deal_one().unwrap();
    let c = d.clone();
    assert_eq!(c.cards().to_vec(), d.cards().to_vec());
    assert_eq!(c.dealt_cards().to_vec(), d.dealt_cards().to_vec());
}
