//! What a player's client decides: where the other players sit on screen,
//! which cards are selected, and what is sent when the player plays.

use std::collections::BTreeMap;
use vstd::prelude::*;
use vstd::std_specs::iter::IteratorSpec;

use crate::components::card::{card_of_chars, Card};
use crate::components::cards::{combination_of, ThirteenCombination};
use crate::components::hand::{cards_of_text, join_cards, lemma_hand_text_round_trip, names_cards, Hand};
use crate::components::rank::Rank;
use crate::components::suit::Suit;
use crate::messages::error::GameError;
use crate::text::utf8_len;

verus! {

broadcast use {
    vstd::std_specs::btree::group_btree_axioms,
    vstd::laws_cmp::group_laws_cmp,
};

/// Where the player at seat `player_pos` is drawn, counting seats clockwise
/// from the local player at seat `local_pos`: 1, 2 or 3.
pub fn relative_player_slot(local_pos: i32, player_pos: usize) -> (slot: usize)
    requires
        // there are only seats 0 to 3, and the local player is never placed relative to itself
        0 <= local_pos <= 3,
        player_pos <= 3,
        player_pos != local_pos,
    ensures
        slot == (player_pos + 4 - local_pos) % 4,
        1 <= slot <= 3,
{
    let mut player_num: usize = 0;
    match local_pos {
        0 => {
            player_num = player_pos;
        },
        1 => {
            if player_pos == 2 {
                player_num = 1;
            }
            if player_pos == 3 {
                player_num = 2;
            }
            if player_pos == 0 {
                player_num = 3;
            }
        },
        2 => {
            if player_pos == 3 {
                player_num = 1;
            }
            if player_pos == 0 {
                player_num = 2;
            }
            if player_pos == 1 {
                player_num = 3;
            }
        },
        _ => {
            if player_pos == 0 {
                player_num = 1;
            }
            if player_pos == 1 {
                player_num = 2;
            }
            if player_pos == 2 {
                player_num = 3;
            }
        },
    }
    player_num
}

/// The keys in increasing order, each once.
pub open spec fn keys_in_order(m: Map<usize, Card>, ks: Seq<usize>) -> bool {
    &&& forall|i: int, j: int| 0 <= i < j < ks.len() ==> ks[i] < ks[j]
    &&& ks.to_set() == m.dom()
}

/// The cards of the map, in increasing order of their keys.
pub open spec fn cards_in_key_order(m: Map<usize, Card>, cs: Seq<Card>) -> bool {
    exists|ks: Seq<usize>| keys_in_order(m, ks) && cs == ks.map_values(|k: usize| m[k])
}

/// Only one sequence lists the keys of a map in increasing order.
pub proof fn lemma_keys_in_order_unique(m: Map<usize, Card>, a: Seq<usize>, b: Seq<usize>)
    requires
        keys_in_order(m, a),
        keys_in_order(m, b),
    ensures
        a == b,
    decreases a.len(),
{
    lemma_increasing_no_duplicates(a);
    lemma_increasing_no_duplicates(b);
    a.unique_seq_to_set();
    b.unique_seq_to_set();
    if a.len() > 0 {
        assert(a.to_set().contains(a[0]));
        assert(b.to_set().contains(b[0]));
        let j = choose|j: int| 0 <= j < b.len() && b[j] == a[0];
        let k = choose|k: int| 0 <= k < a.len() && a[k] == b[0];
        assert(b.contains(a[0]));
        assert(a.contains(b[0]));
        assert(a[0] == b[0]);
        let m2 = m.remove(a[0]);
        assert(a.drop_first().to_set() =~= m2.dom()) by {
            assert forall|x: usize| a.drop_first().to_set().contains(x) implies m2.dom().contains(x) by {
                let i = choose|i: int| 0 <= i < a.drop_first().len() && a.drop_first()[i] == x;
                assert(a[i + 1] == x);
                assert(a.contains(x));
            }
            assert forall|x: usize| m2.dom().contains(x) implies a.drop_first().to_set().contains(x) by {
                assert(a.to_set().contains(x));
                let i = choose|i: int| 0 <= i < a.len() && a[i] == x;
                assert(i != 0);
                assert(a.drop_first()[i - 1] == x);
                assert(a.drop_first().contains(x));
            }
        }
        assert(b.drop_first().to_set() =~= m2.dom()) by {
            assert forall|x: usize| b.drop_first().to_set().contains(x) implies m2.dom().contains(x) by {
                let i = choose|i: int| 0 <= i < b.drop_first().len() && b.drop_first()[i] == x;
                assert(b[i + 1] == x);
                assert(b.contains(x));
            }
            assert forall|x: usize| m2.dom().contains(x) implies b.drop_first().to_set().contains(x) by {
                assert(b.to_set().contains(x));
                let i = choose|i: int| 0 <= i < b.len() && b[i] == x;
                assert(i != 0);
                assert(b.drop_first()[i - 1] == x);
                assert(b.drop_first().contains(x));
            }
        }
        lemma_keys_in_order_unique(m2, a.drop_first(), b.drop_first());
        assert(a =~= seq![a[0]] + a.drop_first());
        assert(b =~= seq![b[0]] + b.drop_first());
    } else {
        assert(b.to_set().len() == 0);
    }
}

/// Only one sequence lists the cards of a map in increasing order of their keys.
pub proof fn lemma_cards_in_key_order_unique(m: Map<usize, Card>, a: Seq<Card>, b: Seq<Card>)
    requires
        cards_in_key_order(m, a),
        cards_in_key_order(m, b),
    ensures
        a == b,
{
    let ka = choose|ks: Seq<usize>| keys_in_order(m, ks) && a == ks.map_values(|k: usize| m[k]);
    let kb = choose|ks: Seq<usize>| keys_in_order(m, ks) && b == ks.map_values(|k: usize| m[k]);
    lemma_keys_in_order_unique(m, ka, kb);
}

/// A strictly increasing sequence repeats nothing.
proof fn lemma_increasing_no_duplicates(a: Seq<usize>)
    requires
        forall|i: int, j: int| 0 <= i < j < a.len() ==> a[i] < a[j],
    ensures
        a.no_duplicates(),
{
    assert forall|i: int, j: int| 0 <= i < a.len() && 0 <= j < a.len() && i != j implies a[i] != a[j] by {
        if i < j {
            assert(a[i] < a[j]);
        } else {
            assert(a[j] < a[i]);
        }
    }
}

/// The keys of a map, in increasing order.
fn ordered_keys(m: &BTreeMap<usize, Card>) -> (ks: Vec<usize>)
    ensures
        keys_in_order(m@, ks@),
{
    let ghost rem = vstd::std_specs::btree::spec_keys_iter(m).remaining().map_values(|r: &usize| *r);
    proof {
        let refs = vstd::std_specs::btree::spec_keys_iter(m).remaining();
        vstd::std_specs::btree::axiom_spec_keys_iter(m);
        assert(refs.unref() =~= rem);
        broadcast use vstd::laws_cmp::lemma_ref_obeys_cmp_spec;
        assert forall|i: int, j: int| 0 <= i < j < rem.len() implies rem[i] < rem[j] by {
            assert(vstd::std_specs::cmp::OrdSpec::cmp_spec(&refs[i], &refs[j]) is Less);
        }
    }
    let mut ks: Vec<usize> = Vec::new();
    for k in it: m.keys()
        invariant
            ks@.len() == it.index(),
            it.seq().map_values(|r: &usize| *r) == rem,
            forall|i: int| 0 <= i < ks@.len() ==> ks@[i] == rem[i],
    {
        ks.push(*k);
    }
    assert(ks@ =~= rem);
    ks
}

/// The cards that the player has selected, by the ordinal of each card.
pub struct ActiveCards(BTreeMap<usize, Card>);

impl View for ActiveCards {
    type V = Map<usize, Card>;

    closed spec fn view(&self) -> Map<usize, Card> {
        self.0@
    }
}

impl Default for ActiveCards {
    fn default() -> (a: Self)
        ensures
            a@ == Map::<usize, Card>::empty(),
    {
        ActiveCards(BTreeMap::new())
    }
}

impl ActiveCards {
    pub fn is_active(&self, key: &usize) -> (b: bool)
        ensures
            b == self@.contains_key(*key),
    {
        self.0.contains_key(key)
    }

    /// Selects the card under the key, or unselects it if it was selected.
    pub fn make_active(&mut self, key: &usize, card: &Card)
        ensures
            old(self)@.contains_key(*key) ==> final(self)@ == old(self)@.remove(*key),
            !old(self)@.contains_key(*key) ==> final(self)@ == old(self)@.insert(*key, *card),
    {
        if self.0.contains_key(key) {
            self.0.remove(key);
        } else {
            self.0.insert(*key, *card);
        }
    }

    /// The keys of the selected cards, in increasing order.
    pub fn keys(&self) -> (ks: Vec<usize>)
        ensures
            keys_in_order(self@, ks@),
    {
        ordered_keys(&self.0)
    }

    /// The selected cards, in increasing order of their keys.
    pub fn to_vec(&mut self) -> (cs: Vec<Card>)
        ensures
            *final(self) == *old(self),
            cards_in_key_order(old(self)@, cs@),
    {
        let ks = ordered_keys(&self.0);
        let mut cards_vec: Vec<Card> = Vec::new();
        let mut i: usize = 0;
        while i < ks.len()
            invariant
                i <= ks@.len(),
                keys_in_order(self.0@, ks@),
                cards_vec@ =~= ks@.take(i as int).map_values(|k: usize| self.0@[k]),
            decreases ks@.len() - i,
        {
            let k = ks[i];
            assert(ks@.to_set().contains(k));
            let card = *self.0.get(&k).unwrap();
            cards_vec.push(card);
            i = i + 1;
        }
        assert(ks@.take(ks@.len() as int) =~= ks@);
        cards_vec
    }

    /// The short names of the selected cards separated by commas, or an error
    /// when no card is selected.
    pub fn to_string(&mut self) -> (r: Result<String, &'static str>)
        ensures
            *final(self) == *old(self),
            old(self)@.len() == 0 ==> (r matches Err(e) && e@ == "Not have any active card"@),
            old(self)@.len() > 0 ==> (r matches Ok(s) && exists|cs: Seq<Card>|
                cards_in_key_order(old(self)@, cs) && s@ == join_cards(cs)),
    {
        if self.is_empty() {
            return Err("Not have any active card");
        }
        let cards = self.to_vec();
        let mut hand = Hand { cards };
        Ok(hand.to_string())
    }

    pub fn is_empty(&self) -> (b: bool)
        ensures
            b == (self@.len() == 0),
    {
        proof {
            vstd::std_specs::btree::axiom_btree_map_view_finite_dom(self.0);
        }
        self.0.is_empty()
    }

    pub fn clear(&mut self)
        ensures
            final(self)@ == Map::<usize, Card>::empty(),
    {
        self.0.clear();
    }
}

/// The cards that a hand sent by the server gives the player, added to the
/// cards the player holds: the text is read two characters at a time, and
/// each pair that names a card adds that card under its ordinal.
pub open spec fn cards_after_reading(m: Map<usize, Card>, s: Seq<char>) -> Map<usize, Card>
    decreases s.len(),
{
    if s.len() == 0 {
        m
    } else {
        let k: int = if s.len() >= 2 { 2 } else { 1 };
        let next = match card_of_chars(s.take(k)) {
            Some(c) => m.insert(c.spec_ordinal(), c),
            None => m,
        };
        cards_after_reading(next, s.skip(k))
    }
}

/// The cards keyed by their ordinals, a later card replacing an earlier one
/// under the same key.
pub open spec fn cards_by_ordinal(cs: Seq<Card>) -> Map<usize, Card>
    decreases cs.len(),
{
    if cs.len() == 0 {
        Map::empty()
    } else {
        cards_by_ordinal(cs.drop_last()).insert(cs.last().spec_ordinal(), cs.last())
    }
}

/// The local player's cards become those of the hand the server holds for
/// them, given as comma-separated short names (empty for no card).
pub fn sync_main_player_cards(hand_text: &str, player_cards: &mut BTreeMap<usize, Card>)
    requires
        // a piece that names no card makes the reading panic
        hand_text@.len() == 0 || names_cards(hand_text@),
    ensures
        final(player_cards)@ == (if hand_text@.len() == 0 {
            Map::<usize, Card>::empty()
        } else {
            cards_by_ordinal(cards_of_text(hand_text@))
        }),
{
    let hand = Hand::from_string(hand_text);
    player_cards.clear();
    if hand.is_empty() {
        proof {
            if hand_text@.len() > 0 {
                crate::components::hand::lemma_names_cards_nonempty(hand_text@);
            }
        }
        return;
    }
    let mut i: usize = 0;
    while i < hand.cards.len()
        invariant
            i <= hand.cards@.len(),
            player_cards@ == cards_by_ordinal(hand.cards@.take(i as int)),
        decreases hand.cards@.len() - i,
    {
        let c = hand.cards[i];
        player_cards.insert(c.ordinal(), c);
        proof {
            assert(hand.cards@.take(i + 1).drop_last() =~= hand.cards@.take(i as int));
        }
        i = i + 1;
    }
    assert(hand.cards@.take(hand.cards@.len() as int) =~= hand.cards@);
}

/// Selects the player's card under the key, or unselects it if it was selected.
pub fn select_card(active: &mut ActiveCards, player_cards: &BTreeMap<usize, Card>, key: usize)
    requires
        // the card is looked up among the held cards, which panics when it is not there
        player_cards@.contains_key(key),
    ensures
        old(active)@.contains_key(key) ==> final(active)@ == old(active)@.remove(key),
        !old(active)@.contains_key(key) ==> final(active)@ == old(active)@.insert(key, player_cards@[key]),
{
    let card = *player_cards.get(&key).unwrap();
    active.make_active(&key, &card);
}

/// The player presses play. When the selected cards form a combination they
/// leave the player's cards, the selection is cleared, and their short names
/// separated by commas are returned to be sent to the server. Otherwise,
/// and when nothing is selected, nothing changes and nothing is sent.
pub fn play_card(active: &mut ActiveCards, player_cards: &mut BTreeMap<usize, Card>) -> (sent: Option<String>)
    ensures
        old(active)@.len() == 0 ==> sent is None && final(active)@ == old(active)@
            && final(player_cards)@ == old(player_cards)@,
        old(active)@.len() > 0 ==> exists|cs: Seq<Card>| #[trigger] cards_in_key_order(old(active)@, cs) && (
            if combination_of(cs) == ThirteenCombination::NonSense {
                &&& sent is None
                &&& final(active)@ == old(active)@
                &&& final(player_cards)@ == old(player_cards)@
            } else {
                &&& sent matches Some(t) && t@ == join_cards(cs)
                &&& final(active)@ == Map::<usize, Card>::empty()
                &&& final(player_cards)@ == old(player_cards)@.remove_keys(old(active)@.dom())
            }),
{
    let text = match active.to_string() {
        Ok(t) => t,
        Err(_) => {
            return None;
        },
    };
    let ghost cs = choose|cs: Seq<Card>| cards_in_key_order(active@, cs) && text@ == join_cards(cs);
    proof {
        let ks = choose|ks: Seq<usize>| keys_in_order(active@, ks) && cs == ks.map_values(|k: usize| active@[k]);
        assert(ks.to_set().len() > 0);
        ks.lemma_cardinality_of_set();
        lemma_hand_text_round_trip(cs);
    }
    let hand = Hand::from_str(text.as_str());
    if !hand.check_combination() {
        return None;
    }
    let ks = active.keys();
    let ghost start = player_cards@;
    let mut i: usize = 0;
    while i < ks.len()
        invariant
            i <= ks@.len(),
            player_cards@ == start.remove_keys(ks@.take(i as int).to_set()),
        decreases ks@.len() - i,
    {
        let k = ks[i];
        player_cards.remove(&k);
        proof {
            assert(ks@.take(i + 1).to_set() =~= ks@.take(i as int).to_set().insert(k)) by {
                assert(ks@.take(i + 1) =~= ks@.take(i as int).push(k));
                ks@.take(i as int).lemma_push_to_set_commute(k);
            }
            assert(player_cards@ =~= start.remove_keys(ks@.take(i + 1).to_set()));
        }
        i = i + 1;
    }
    proof {
        assert(ks@.take(ks@.len() as int) =~= ks@);
    }
    active.clear();
    Some(text)
}

/// Adds to the player's cards those named by the hand the server dealt: the
/// text is read two characters at a time and each pair that names a card
/// adds it under its ordinal; other pairs are passed over.
pub fn spawn_player(hand_text: &str, player_cards: &mut BTreeMap<usize, Card>)
    requires
        // a lone last character of two UTF-8 bytes passes the length test of
        // the card reader and then has no second character, which panics
        !(hand_text@.len() % 2 == 1 && utf8_len(seq![hand_text@.last()]) == 2),
    ensures
        final(player_cards)@ == cards_after_reading(old(player_cards)@, hand_text@),
{
    let ghost s = hand_text@;
    let ghost start = player_cards@;
    let n = hand_text.unicode_len();
    let mut i: usize = 0;
    assert(s.skip(0) =~= s);
    while i < n
        invariant
            n == s.len(),
            s == hand_text@,
            i <= n,
            i < n ==> i % 2 == 0,
            !(s.len() % 2 == 1 && utf8_len(seq![s.last()]) == 2),
            cards_after_reading(player_cards@, s.skip(i as int)) == cards_after_reading(start, s),
        decreases n - i,
    {
        let end: usize = if n - i >= 2 { i + 2 } else { i + 1 };
        let piece = hand_text.substring_char(i, end);
        proof {
            let rest = s.skip(i as int);
            assert(rest.take(end - i) =~= piece@);
            assert(rest.skip(end - i) =~= s.skip(end as int));
            if end == i + 1 {
                assert(piece@ =~= seq![s.last()]);
            }
        }
        match Card::from_str(piece) {
            Ok(card) => {
                player_cards.insert(card.ordinal(), card);
            },
            Err(_) => {},
        }
        i = end;
    }
    proof {
        assert(s.skip(n as int) =~= Seq::<char>::empty());
    }
}

/// Whether the selected cards, given by their short names, may be played:
/// something is selected and the cards form a combination.
pub fn valid_cards_condition(active_cards: &[String]) -> (ok: bool)
    requires
        // a name that is no card makes the reading panic
        forall|i: int| 0 <= i < active_cards@.len() ==> #[trigger] card_of_chars(active_cards@[i]@) is Some,
    ensures
        ok == (active_cards@.len() > 0 && combination_of(
            active_cards@.map_values(|s: String| card_of_chars(s@)->0),
        ) != ThirteenCombination::NonSense),
{
    if active_cards.len() == 0 {
        return false;
    }
    let mut cards: Vec<Card> = Vec::new();
    let mut i: usize = 0;
    while i < active_cards.len()
        invariant
            i <= active_cards@.len(),
            forall|k: int| 0 <= k < active_cards@.len() ==> #[trigger] card_of_chars(active_cards@[k]@) is Some,
            cards@ =~= active_cards@.take(i as int).map_values(|s: String| card_of_chars(s@)->0),
        decreases active_cards@.len() - i,
    {
        assert(card_of_chars(active_cards@[i as int]@) is Some);
        let card = Card::from_str(active_cards[i].as_str()).unwrap();
        cards.push(card);
        i = i + 1;
    }
    assert(active_cards@.take(active_cards@.len() as int) =~= active_cards@);
    let hand = Hand { cards };
    hand.check_combination()
}

/// The place on screen where a player is drawn.
#[derive(Debug, Clone, Copy, PartialEq, Eq, Structural)]
pub enum Seat {
    Bottom,
    Left,
    Top,
    Right,
}

/// Where a player who was already at the table is drawn once the local
/// player has taken seat `local_pos`; `None` when the player is not drawn.
pub open spec fn existing_seat(local_pos: usize, player_pos: usize) -> Option<Seat> {
    if local_pos == 1 {
        Some(Seat::Right)
    } else if local_pos == 2 {
        if player_pos == 0 {
            Some(Seat::Top)
        } else if player_pos == 1 {
            Some(Seat::Right)
        } else {
            None
        }
    } else if local_pos == 3 {
        if player_pos == 0 {
            Some(Seat::Left)
        } else if player_pos == 2 {
            Some(Seat::Right)
        } else if player_pos == 1 {
            Some(Seat::Top)
        } else {
            None
        }
    } else {
        None
    }
}

/// Where a player who was already at the table is drawn once the local
/// player has taken seat `local_pos`: nothing is drawn for the first seat,
/// the second seat draws every other player on the right, the third draws
/// seat 0 on top and seat 1 on the right, the fourth draws seat 0 on the
/// left, seat 1 on top and seat 2 on the right.
pub fn existing_player_seat(local_pos: usize, player_pos: usize) -> (seat: Option<Seat>)
    ensures
        seat == existing_seat(local_pos, player_pos),
{
    if local_pos == 0 {
        return None;
    }
    if local_pos == 1 {
        return Some(Seat::Right);
    }
    if local_pos == 2 {
        if player_pos == 0 {
            return Some(Seat::Top);
        }
        if player_pos == 1 {
            return Some(Seat::Right);
        }
        return None;
    }
    if local_pos == 3 {
        if player_pos == 0 {
            return Some(Seat::Left);
        }
        if player_pos == 2 {
            return Some(Seat::Right);
        }
        if player_pos == 1 {
            return Some(Seat::Top);
        }
    }
    None
}

/// Where a player who has just joined is drawn: the first free place in the
/// order bottom, left, top, right, or nowhere when all four are taken.
pub fn new_player_seat(bottom_taken: bool, left_taken: bool, top_taken: bool, right_taken: bool) -> (seat: Option<Seat>)
    ensures
        seat == (if !bottom_taken {
            Some(Seat::Bottom)
        } else if !left_taken {
            Some(Seat::Left)
        } else if !top_taken {
            Some(Seat::Top)
        } else if !right_taken {
            Some(Seat::Right)
        } else {
            None
        }),
{
    if !bottom_taken {
        return Some(Seat::Bottom);
    }
    if !left_taken {
        return Some(Seat::Left);
    }
    if !top_taken {
        return Some(Seat::Top);
    }
    if !right_taken {
        return Some(Seat::Right);
    }
    None
}

/// The text shown to the player when the server refuses a move.
pub open spec fn error_text(e: GameError) -> Seq<char> {
    match e {
        GameError::InvalidCards => "Your cards are week!"@,
        GameError::WrongCombination => "Your cards are not the same combination"@,
        GameError::WrongTurn => "Not your turn now! Game bug probably"@,
        GameError::UnknownError => "Unexpected error happend"@,
    }
}

/// The text shown to the player when the server refuses a move.
pub fn error_status(e: GameError) -> (text: &'static str)
    ensures
        text@ == error_text(e),
{
    match e {
        GameError::InvalidCards => "Your cards are week!",
        GameError::WrongCombination => "Your cards are not the same combination",
        GameError::WrongTurn => "Not your turn now! Game bug probably",
        GameError::UnknownError => "Unexpected error happend",
    }
}

/// The place of a card among all cards, by which the player's cards are kept in order.
#[derive(Debug, Clone, Copy, PartialEq, Eq, Structural)]
pub struct Ordinal(pub usize);

impl Ordinal {
    pub fn new(rank: Rank, suit: Suit) -> (o: Self)
        ensures
            o.0 == (Card { rank, suit }).spec_ordinal(),
    {
        Ordinal(rank.ordinal() * 13 + suit.ordinal())
    }

    pub fn get(&self) -> (n: usize)
        ensures
            n == self.0,
    {
        self.0
    }
}

} // verus!
