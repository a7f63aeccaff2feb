use std::cmp::Ordering;
use std::collections::HashSet;

use tienlen::components::card::Card;
use tienlen::components::rank::Rank;
use tienlen::components::suit::Suit;

#[test]
fn card_reads_its_short_name() {
    assert_eq!(Card::from_str("3C"), Ok(Card::new(Rank::Three, Suit::Clubs)));
    assert_eq!(Card::from_str("TH"), Ok(Card::new(Rank::Ten, Suit::Hearts)));
    assert_eq!(Card::from_str("1S"), Ok(Card::new(Rank::Ace, Suit::Spades)));
}

#[test]
fn card_refuses_text_of_wrong_length() {
    assert_eq!(
        Card::from_str("10H"),
        Err("Card string must be length equal to 2")
    );
    assert_eq!(Card::from_str(""), Err("Card string must be length equal to 2"));
    assert_eq!(Card::from_str("3"), Err("Card string must be length equal to 2"));
    assert_eq!(Card::from_str("3é"), Err("Card string must be length equal to 2"));
}

#[test]
fn card_refuses_unknown_names() {
    assert_eq!(
        Card::from_str("XH"),
        Err("Error parsing card: Invalid string")
    );
    assert_eq!(
        Card::from_str("3X"),
        Err("Error parsing card: Invalid string")
    );
}

#[test]
fn card_short_name_round_trips() {
    for c in Card::all_cards() {
        let s = c.to_str();
        assert_eq!(s.len(), 2);
        assert_eq!(Card::from_str(&s), Ok(c));
    }
}

#[test]
fn card_ordinals_are_unique_and_ordered_by_rank_then_suit() {
    let cards = Card::all_cards();
    let ords: HashSet<usize> = cards.iter().map(|c| c.ordinal()).collect();
    assert_eq!(ords.len(), 52);
    assert_eq!(Card::new(Rank::Three, Suit::Spades).ordinal(), 13);
    assert_eq!(Card::new(Rank::Three, Suit::Clubs).ordinal(), 14);
    assert_eq!(Card::new(Rank::Two, Suit::Hearts).ordinal(), 13 * 13 + 3);
}

#[test]
fn card_comparisons() {
    let three_clubs = Card::new(Rank::Three, Suit::Clubs);
    let three_hearts = Card::new(Rank::Three, Suit::Hearts);
    let two_spades = Card::new(Rank::Two, Suit::Spades);
    assert_eq!(three_clubs.cmp_rank(&three_hearts), Ordering::Equal);
    assert_eq!(three_clubs.cmp_rank_suit(&three_hearts), Ordering::Less);
    assert_eq!(two_spades.cmp_rank_suit(&three_hearts), Ordering::Greater);
    assert_eq!(two_spades.cmp_rank(&three_hearts), Ordering::Greater);
    assert_eq!(three_hearts.cmp_rank_suit(&three_hearts), Ordering::Equal);
}

#[test]
fn card_names_and_paths() {
    let c = Card::new(Rank::Three, Suit::Clubs);
    assert_eq!(c.to_str(), "3C".to_string());
    assert_eq!(c.name(), "Three of Clubs".to_string());
    assert_eq!(
        c.to_path(),
        "cards/standard/solitaire/individuals/club/3.png".to_string()
    );
    let q = Card::new(Rank::Queen, Suit::Hearts);
    assert_eq!(
        q.to_path(),
        "cards/standard/solitaire/individuals/heart/12.png".to_string()
    );
    let a = Card::new(Rank::Ace, Suit::Spades);
    assert_eq!(
        a.to_path(),
        "cards/standard/solitaire/individuals/spade/1.png".to_string()
    );
}

#[test]
fn card_suit_tests() {
    let c = Card::new(Rank::Five, Suit::Diamonds);
    assert!(c.is_diamonds());
    assert!(!c.is_hearts());
    assert!(!c.is_clubs());
    assert!(!c.is_spades());
    assert!(Card::make_3C().is_clubs());
    assert_eq!(Card::make_3C(), Card::new(Rank::Three, Suit::Clubs));
    assert_eq!(Card::default(), Card::new(Rank::Ace, Suit::Hearts));
}

#[test]
fn all_cards_lists_the_standard_deck() {
    let cards = Card::all_cards();
    assert_eq!(cards.len(), 52);
    assert_eq!(cards[0], Card::new(Rank::Two, Suit::Spades));
    assert_eq!(cards[1], Card::new(Rank::Three, Suit::Spades));
    assert_eq!(cards[13], Card::new(Rank::Two, Suit::Hearts));
    assert_eq!(cards[51], Card::new(Rank::Ace, Suit::Clubs));
    let distinct: HashSet<Card> = cards.iter().cloned().collect();
    assert_eq!(distinct.len(), 52);
    assert_eq!(Card::iterator(), cards);
}
