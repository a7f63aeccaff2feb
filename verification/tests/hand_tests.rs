use tienlen::components::card::Card;
use tienlen::components::cards::{Cards, ThirteenCombination};
use tienlen::components::hand::Hand;
use tienlen::components::rank::Rank;
use tienlen::components::suit::Suit;

fn card(s: &str) -> Card {
    Card::from_str(s).unwrap()
}

#[test]
fn hand_text_round_trip() {
    let mut h = Hand::from_strings(&["3C", "TH", "2S", "3C"]);
    let text = h.to_string();
    assert_eq!(text, "3C,TH,2S,3C".to_string());
    let back = Hand::from_str(&text);
    assert_eq!(back.cards, h.cards);
}

#[test]
fn hand_from_str_reads_each_piece() {
    let h = Hand::from_str("AS,9D");
    assert_eq!(h.cards, vec![card("AS"), card("9D")]);
    let one = Hand::from_str("KH");
    assert_eq!(one.cards, vec![card("KH")]);
}

#[test]
fn hand_from_string_of_empty_text_is_empty() {
    let h = Hand::from_string("");
    assert!(h.is_empty());
    let h2 = Hand::from_string("4C,5C");
    assert_eq!(h2.cards, vec![card("4C"), card("5C")]);
}

#[test]
fn hand_empty_to_string() {
    let mut h = Hand::new();
    assert_eq!(h.to_string(), String::new());
    assert_eq!(h.len(), 0);
}

#[test]
fn hand_push_and_len() {
    let mut h = Hand::new();
    h.push_card(card("3S"));
    h.push_cards(&[card("4S"), card("5S")]);
    let other = Hand::from_strings(&["6S"]);
    h.push_hand(&other);
    assert_eq!(h.len(), 4);
    assert_eq!(
        h.cards,
        vec![card("3S"), card("4S"), card("5S"), card("6S")]
    );
    let copy = Hand::from_hand(&h);
    assert_eq!(copy.cards, h.cards);
    let from_slice = Hand::from_cards(&[card("7D")]);
    assert_eq!(from_slice.cards, vec![card("7D")]);
    h.clear();
    assert!(h.is_empty());
}

#[test]
fn hand_total_and_highest_value() {
    let h = Hand::from_strings(&["3S", "3C", "2H"]);
    assert_eq!(h.total_value(), 13 + 14 + 172);
    assert_eq!(*h.highest_value(), card("2H"));
    let h2 = Hand::from_strings(&["KD", "AS", "4H"]);
    assert_eq!(*h2.highest_value(), card("AS"));
}

#[test]
fn hand_sort_orders_by_suit_then_rank() {
    let mut h = Hand::from_strings(&["2H", "3C", "4S", "AS", "3S", "KD"]);
    h.sort();
    assert_eq!(
        h.cards,
        vec![card("3S"), card("4S"), card("AS"), card("3C"), card("KD"), card("2H")]
    );
}

#[test]
fn hand_smallest_card_takes_the_first_in_sorted_order() {
    let mut h = Hand::from_strings(&["3C", "4S", "2H"]);
    assert_eq!(h.smallest_card(), card("4S"));
    assert_eq!(h.cards, vec![card("4S"), card("3C"), card("2H")]);
    let mut h2 = Hand::from_strings(&["9H", "5D", "7D"]);
    assert_eq!(h2.remove_smallest_card(), card("5D"));
    assert_eq!(h2.cards, vec![card("7D"), card("9H")]);
}

#[test]
fn hand_remove_by_index() {
    let mut h = Hand::from_strings(&["3C", "4S", "2H"]);
    assert_eq!(h.remove(1), card("4S"));
    assert_eq!(h.cards, vec![card("3C"), card("2H")]);
}

#[test]
fn hand_remove_cards_takes_first_instances() {
    let mut h = Hand::from_strings(&["3C", "4S", "3C", "5H"]);
    h.remove_cards(&[card("3C"), card("5H"), card("9D")]);
    assert_eq!(h.cards, vec![card("4S"), card("3C")]);
}

#[test]
fn hand_remove_all_cards_takes_every_instance() {
    let mut h = Hand::from_strings(&["3C", "4S", "3C", "5H"]);
    h.remove_all_cards(&[card("3C"), card("9D")]);
    assert_eq!(h.cards, vec![card("4S"), card("5H")]);
}

#[test]
fn hand_remove_card_reports_whether_found() {
    let mut h = Hand::from_strings(&["3C", "4S", "3C"]);
    assert!(h.remove_card(&card("3C")));
    assert_eq!(h.cards, vec![card("4S"), card("3C")]);
    assert!(!h.remove_card(&card("AH")));
    assert_eq!(h.cards, vec![card("4S"), card("3C")]);
}

#[test]
fn hand_three_of_clubs() {
    assert!(Hand::from_strings(&["5D", "3C"]).contain_3_c());
    assert!(!Hand::from_strings(&["5D", "3S"]).contain_3_c());
    assert!(!Hand::new().contain_3_c());
}

#[test]
fn hand_combinations() {
    let pair = Hand::from_strings(&["9S", "9H"]);
    assert!(pair.check_combination());
    assert!(pair.is_in_combination());
    assert_eq!(pair.get_combination(), ThirteenCombination::Pair);
    let broken = Hand::from_strings(&["9S", "TH"]);
    assert!(!broken.check_combination());
    assert_eq!(broken.get_combination(), ThirteenCombination::NonSense);
    assert!(!Hand::new().check_combination());
}

#[test]
fn hand_combination_does_not_depend_on_order() {
    let a = Hand::from_strings(&["7S", "5D", "6C"]);
    let b = Hand::from_strings(&["5D", "6C", "7S"]);
    assert_eq!(a.get_combination(), ThirteenCombination::Sequence);
    assert_eq!(a.get_combination(), b.get_combination());
}

#[test]
fn hand_shuffle_keeps_the_cards() {
    let mut h = Hand::from_strings(&["3C", "4S", "2H", "AD", "KC"]);
    let mut before = h.cards.clone();
    h.shuffle();
    let mut after = h.cards.clone();
    before.sort_by_key(|c| c.ordinal());
    after.sort_by_key(|c| c.ordinal());
    assert_eq!(before, after);
}

#[test]
fn hand_default_is_empty() {
    let h = Hand::default();
    assert!(h.is_empty());
    let c = Card::new(Rank::Four, Suit::Hearts);
    assert_eq!(c.to_str(), "4H".to_string());
}
