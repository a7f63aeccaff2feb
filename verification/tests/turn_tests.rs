use tienlen::components::turn::Turn;

#[test]
fn new_turn_starts_with_seat_zero() {
    let mut t = Turn::new(4);
    assert_eq!(t.current_active_player(), Some(0));
    assert!(!t.only_one_player_left());
    assert_eq!(t.next_score(), 3);
}

#[test]
fn next_turn_moves_round_the_table() {
    let mut t = Turn::new(4);
    assert_eq!(t.next_turn(), Some(1));
    assert_eq!(t.next_turn(), Some(2));
    assert_eq!(t.next_turn(), Some(3));
    assert_eq!(t.next_turn(), Some(0));
    t.make_move();
    assert_eq!(t.current_active_player(), Some(1));
}

#[test]
fn skipping_until_one_is_left_starts_a_new_round() {
    let mut t = Turn::new(4);
    assert_eq!(t.skip_turn(), (false, Some(1)));
    assert_eq!(t.skip_turn(), (false, Some(2)));
    // seat 3 is the last one in the round: it leads, and the others follow it
    assert_eq!(t.skip_turn(), (true, Some(3)));
    assert_eq!(t.next_turn(), Some(0));
    assert_eq!(t.next_turn(), Some(1));
    assert_eq!(t.next_turn(), Some(2));
}

#[test]
fn player_out_leaves_the_order_and_lowers_the_score() {
    let mut t = Turn::new(3);
    assert_eq!(t.player_out(), 1);
    assert_eq!(t.next_score(), 1);
    assert!(!t.only_one_player_left());
    // the new round passes over the seat whose player is out
    assert_eq!(t.skip_turn(), (true, Some(2)));
    assert_eq!(t.next_turn(), Some(1));
    assert_eq!(t.next_turn(), Some(2));
}

#[test]
fn a_single_player_left_keeps_the_turn() {
    let mut t = Turn::new(2);
    assert_eq!(t.player_out(), 1);
    assert!(t.only_one_player_left());
    assert_eq!(t.next_score(), 0);
    assert_eq!(t.skip_turn(), (false, Some(1)));
    assert_eq!(t.current_active_player(), Some(1));
}

#[test]
fn new_player_join_takes_the_next_seat_up_to_four() {
    let mut t = Turn::new(3);
    t.new_player_join();
    assert_eq!(t.next_score(), 3);
    t.new_player_join();
    assert_eq!(t.next_score(), 3);
    assert_eq!(t.next_turn(), Some(1));
    assert_eq!(t.next_turn(), Some(2));
    assert_eq!(t.next_turn(), Some(3));
    assert_eq!(t.next_turn(), Some(0));
}

#[test]
fn new_match_restores_seat_order() {
    let mut t = Turn::new(4);
    t.player_out();
    t.next_turn();
    t.new_match();
    assert_eq!(t.current_active_player(), Some(0));
    assert_eq!(t.next_score(), 3);
}

#[test]
fn calculate_turn_repeats_the_following_seat() {
    let mut t = Turn::new(4);
    t.calculate_turn(2);
    assert_eq!(t.current_active_player(), Some(2));
    assert_eq!(t.next_turn(), Some(3));
    assert_eq!(t.next_turn(), Some(3));
    assert_eq!(t.next_turn(), Some(3));
    assert_eq!(t.next_turn(), Some(2));
}

#[test]
fn recalculate_turn_fills_the_order_after_a_lone_player() {
    let mut t = Turn::new(4);
    t.player_out();
    t.player_out();
    assert_eq!(t.player_out(), 3);
    t.recalculate_turn();
    assert_eq!(t.current_active_player(), Some(3));
    assert_eq!(t.next_turn(), Some(0));
    assert_eq!(t.next_turn(), Some(1));
    assert_eq!(t.next_turn(), Some(2));
}

#[test]
fn recalculate_turn_leaves_a_longer_order_alone() {
    let mut t = Turn::new(3);
    t.recalculate_turn();
    assert_eq!(t.next_turn(), Some(1));
    assert_eq!(t.next_turn(), Some(2));
    assert_eq!(t.next_turn(), Some(0));
}
