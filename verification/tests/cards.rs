use tienlen::components::cards::{
    balance_array, evaluate_combination, is_double_sequences, is_number_sequence, is_sequences,
    Cards, ThirteenCombination,
};
use tienlen::components::deck::Deck;
use tienlen::components::hand::Hand;

#[test]
fn test_shuffle() {
    let mut d = Deck::new();
    let before = d.count();
    d.shuffle();
    assert_eq!(d.count(), before);
    assert_eq!(d.undealt_count(), 52);
}

#[test]
fn test_evaluate_combination() {
    let double_sequences = Hand::from_strings(&["4D", "5H", "5D", "6C", "6S", "4S"]);
    let non_double_sequences = Hand::from_strings(&["4D", "4S", "7H", "5D", "6C", "6S"]);
    let sequence = Hand::from_strings(&["4D", "6C", "5S", "7S"]);
    let sequence2 = Hand::from_strings(&["KS", "AS", "2S"]);
    let triple = Hand::from_strings(&["4D", "4S", "4H"]);
    let pair = Hand::from_strings(&["5S", "5H"]);
    let single = Hand::from_strings(&["5S"]);
    let quartet = Hand::from_strings(&["5S", "5H", "5D", "5C"]);
    let nonsense = Hand::from_strings(&["5S", "5H", "7H"]);

    assert_eq!(
        evaluate_combination(double_sequences.cards()),
        ThirteenCombination::DoubleSequence
    );
    assert_eq!(
        evaluate_combination(non_double_sequences.cards()),
        ThirteenCombination::NonSense
    );
    assert_eq!(
        evaluate_combination(sequence.cards()),
        ThirteenCombination::Sequence
    );
    assert_eq!(
        evaluate_combination(triple.cards()),
        ThirteenCombination::Triple
    );
    assert_eq!(
        evaluate_combination(pair.cards()),
        ThirteenCombination::Pair
    );
    assert_eq!(
        evaluate_combination(nonsense.cards()),
        ThirteenCombination::NonSense
    );
    assert_eq!(
        evaluate_combination(single.cards()),
        ThirteenCombination::Single
    );
    assert_eq!(
        evaluate_combination(quartet.cards()),
        ThirteenCombination::Quartet
    );
    assert_eq!(
        evaluate_combination(sequence2.cards()),
        ThirteenCombination::NonSense
    );
}

#[test]
fn test_is_double_sequence() {
    let double_sequences = Hand::from_strings(&["4D", "5H", "5D", "6C", "6S", "4S"]);
    let non_double_sequences = Hand::from_strings(&["4D", "4S", "7H", "5D", "6C", "6S"]);

    assert!(is_double_sequences(double_sequences.cards()));
    assert!(!is_double_sequences(non_double_sequences.cards()));
}

#[test]
fn test_is_sequence() {
    let seq_hand = Hand::from_strings(&["8D", "9H", "4D", "5D", "6C", "7S"]);
    let non_seq_hand = Hand::from_strings(&["3D", "9D", "5D"]);

    assert!(is_sequences(seq_hand.cards()));
    assert!(!is_sequences(non_seq_hand.cards()));
}

#[test]
fn sequence_may_not_hold_a_two() {
    let hand = Hand::from_strings(&["QS", "KS", "AS", "2S"]);
    assert!(!is_sequences(hand.cards()));
    assert_eq!(evaluate_combination(hand.cards()), ThirteenCombination::NonSense);
}

#[test]
fn pair_of_twos_and_long_sequences() {
    let twos = Hand::from_strings(&["2S", "2H"]);
    assert_eq!(evaluate_combination(twos.cards()), ThirteenCombination::Pair);
    let long = Hand::from_strings(&["3S", "4H", "5D", "6C", "7S", "8H", "9D", "TC", "JS", "QH", "KD", "AC"]);
    assert_eq!(evaluate_combination(long.cards()), ThirteenCombination::Sequence);
    let five = Hand::from_strings(&["3S", "4H", "5D", "6C", "8S"]);
    assert_eq!(evaluate_combination(five.cards()), ThirteenCombination::NonSense);
    assert_eq!(evaluate_combination(&[]), ThirteenCombination::NonSense);
}

#[test]
fn six_card_sequence_wins_over_double_sequence_check() {
    let six = Hand::from_strings(&["3S", "4H", "5D", "6C", "7S", "8H"]);
    assert_eq!(evaluate_combination(six.cards()), ThirteenCombination::Sequence);
}

#[test]
fn balance_and_number_sequence() {
    assert!(balance_array(vec![]));
    assert!(balance_array(vec![4, 4, 4]));
    assert!(!balance_array(vec![4, 5]));
    assert!(is_number_sequence(vec![2, 3, 4]));
    assert!(is_number_sequence(vec![]));
    assert!(!is_number_sequence(vec![2, 4]));
    assert!(!is_number_sequence(vec![2, 3, 3]));
}

#[test]
fn hand_combination_checks() {
    let hand = Hand::from_strings(&["4D", "4S"]);
    assert!(hand.check_combination());
    assert_eq!(hand.get_combination(), ThirteenCombination::Pair);
    let bad = Hand::from_strings(&["4D", "5S"]);
    assert!(!bad.is_in_combination());
}
