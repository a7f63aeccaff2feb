use std::cmp::Ordering;

use tienlen::components::rank::Rank;
use tienlen::components::suit::Suit;

#[test]
fn rank_ordinals_put_three_lowest_and_two_highest() {
    assert_eq!(Rank::Three.ordinal(), 1);
    assert_eq!(Rank::Ten.ordinal(), 8);
    assert_eq!(Rank::Ace.ordinal(), 12);
    assert_eq!(Rank::Two.ordinal(), 13);
}

#[test]
fn rank_cmp_follows_strength() {
    assert_eq!(Rank::Two.cmp(&Rank::Ace), Ordering::Greater);
    assert_eq!(Rank::Three.cmp(&Rank::Four), Ordering::Less);
    assert_eq!(Rank::King.cmp(&Rank::King), Ordering::Equal);
}

#[test]
fn rank_chars_round_trip() {
    for r in Rank::iterator() {
        assert_eq!(Rank::from_char(r.to_char()), Ok(r));
    }
    assert_eq!(Rank::Ten.to_char(), 'T');
    assert_eq!(Rank::from_char('1'), Ok(Rank::Ace));
}

#[test]
fn rank_from_char_refuses_unknown() {
    assert_eq!(Rank::from_char('X'), Err("Invalid rank"));
    assert_eq!(Rank::from_char('0'), Err("Invalid rank"));
}

#[test]
fn rank_names_and_list() {
    assert_eq!(Rank::Queen.to_str(), "Queen");
    assert_eq!(Rank::Two.to_str(), "Two");
    let all = Rank::ranks();
    assert_eq!(all.len(), 13);
    assert_eq!(all[0], Rank::Two);
    assert_eq!(all[12], Rank::Ace);
    assert_eq!(Rank::iterator(), all);
    assert_eq!(Rank::default(), Rank::Ace);
}

#[test]
fn suit_ordinals_and_cmp() {
    assert_eq!(Suit::Spades.ordinal(), 0);
    assert_eq!(Suit::Clubs.ordinal(), 1);
    assert_eq!(Suit::Diamonds.ordinal(), 2);
    assert_eq!(Suit::Hearts.ordinal(), 3);
    assert_eq!(Suit::Hearts.cmp(&Suit::Spades), Ordering::Greater);
    assert_eq!(Suit::Clubs.cmp(&Suit::Diamonds), Ordering::Less);
    assert_eq!(Suit::Clubs.cmp(&Suit::Clubs), Ordering::Equal);
}

#[test]
fn suit_chars_round_trip() {
    for s in Suit::iterator() {
        assert_eq!(Suit::from_char(s.to_char()), Ok(s));
    }
    assert_eq!(Suit::from_char('X'), Err("Invalid suit"));
    assert_eq!(Suit::from_char('h'), Err("Invalid suit"));
}

#[test]
fn suit_names_paths_and_list() {
    assert_eq!(Suit::Diamonds.to_str(), "Diamonds");
    assert_eq!(Suit::Clubs.get_asset_path(), "club".to_string());
    assert_eq!(Suit::Spades.get_asset_path(), "spade".to_string());
    assert_eq!(
        Suit::gen_suit(),
        vec![Suit::Hearts, Suit::Diamonds, Suit::Clubs, Suit::Spades]
    );
    assert_eq!(Suit::iterator(), Suit::gen_suit());
    assert_eq!(Suit::default(), Suit::Hearts);
}

#[test]
fn suit_from_str_reads_one_letter() {
    assert_eq!(Suit::from_str("S"), Ok(Suit::Spades));
    assert_eq!(Suit::from_str("H"), Ok(Suit::Hearts));
    assert_eq!(Suit::from_str("X"), Err("Invalid suit"));
    assert_eq!(Suit::from_str("SS"), Err("Invalid suit"));
    assert_eq!(Suit::from_str(""), Err("Invalid suit"));
}
