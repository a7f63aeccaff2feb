use rand::seq::SliceRandom;
use vstd::prelude::*;
use vstd::relations::{sorted_by, total_ordering};

use crate::components::card::Card;
use crate::components::rank::Rank;
use crate::components::suit::Suit;

verus! {

broadcast use vstd::seq_lib::group_to_multiset_ensures;

/// The combinations of cards that a player may put on the table.
#[derive(Debug, PartialEq, Eq, Structural)]
pub enum ThirteenCombination {
    Single,
    Pair,
    Triple,
    Quartet,
    Sequence,
    DoubleSequence,
    NonSense,
}

/// The order of numbers from small to large.
pub open spec fn ord_leq() -> spec_fn(usize, usize) -> bool {
    |a: usize, b: usize| a <= b
}

/// The key by which cards are sorted: by suit, then by rank, both from low to high.
pub open spec fn suit_rank_key(c: Card) -> int {
    c.suit.spec_ordinal() * 13 + c.rank.spec_ordinal()
}

/// The order in which cards are sorted: by suit, then by rank, both from low to high.
pub open spec fn card_leq() -> spec_fn(Card, Card) -> bool {
    |a: Card, b: Card| suit_rank_key(a) <= suit_rank_key(b)
}

/// The strength of the rank of each card.
pub open spec fn rank_ords(cards: Seq<Card>) -> Seq<usize> {
    cards.map_values(|c: Card| c.rank.spec_ordinal())
}

/// The strengths of the ranks of the cards, from weak to strong.
pub open spec fn sorted_rank_ords(cards: Seq<Card>) -> Seq<usize> {
    rank_ords(cards).sort_by(ord_leq())
}

/// Every number equals the first one (true of an empty list).
pub open spec fn all_equal(s: Seq<usize>) -> bool {
    forall|i: int| 0 <= i < s.len() ==> #[trigger] s[i] == s[0]
}

/// Every number is one more than the one before it.
pub open spec fn consecutive(s: Seq<usize>) -> bool {
    forall|i: int| 1 <= i < s.len() ==> #[trigger] s[i] == s[i - 1] + 1
}

/// Where every earlier step went up by exactly one, the next step does not go down.
pub open spec fn no_descent_in_run(s: Seq<usize>) -> bool {
    forall|i: int|
        1 <= i < s.len() && (forall|j: int| 1 <= j < i ==> #[trigger] s[j] == s[j - 1] + 1) ==> s[i
            - 1] <= #[trigger] s[i]
}

/// All the cards have the same rank.
pub open spec fn same_rank(cards: Seq<Card>) -> bool {
    forall|i: int, j: int| 0 <= i < cards.len() && 0 <= j < cards.len() ==> cards[i].rank == cards[j].rank
}

/// No card is a Two.
pub open spec fn no_two(cards: Seq<Card>) -> bool {
    forall|i: int| 0 <= i < cards.len() ==> cards[i].rank != Rank::Two
}

/// A sequence: no Two among the cards, and their ranks, from weak to strong,
/// each one step above the one before.
pub open spec fn is_sequence(cards: Seq<Card>) -> bool {
    no_two(cards) && consecutive(sorted_rank_ords(cards))
}

/// The numbers come in equal pairs: the first two, the next two, and so on.
pub open spec fn paired(s: Seq<usize>) -> bool {
    forall|k: int| 0 <= k && 2 * k + 1 < s.len() ==> #[trigger] s[2 * k] == s[2 * k + 1]
}

/// The numbers at even positions.
pub open spec fn even_positions(s: Seq<usize>) -> Seq<usize> {
    Seq::new(((s.len() + 1) / 2) as nat, |k: int| s[2 * k])
}

/// A double sequence: the ranks, from weak to strong, come in pairs, and the
/// pairs climb one rank at a time.
pub open spec fn is_double_sequence(cards: Seq<Card>) -> bool {
    let s = sorted_rank_ords(cards);
    paired(s) && consecutive(even_positions(s))
}

/// The combination that a set of cards forms.
pub open spec fn combination_of(cards: Seq<Card>) -> ThirteenCombination {
    let n = cards.len();
    if n == 1 {
        ThirteenCombination::Single
    } else if n == 2 {
        if same_rank(cards) {
            ThirteenCombination::Pair
        } else {
            ThirteenCombination::NonSense
        }
    } else if n == 3 {
        if same_rank(cards) {
            ThirteenCombination::Triple
        } else if is_sequence(cards) {
            ThirteenCombination::Sequence
        } else {
            ThirteenCombination::NonSense
        }
    } else if n == 4 {
        if same_rank(cards) {
            ThirteenCombination::Quartet
        } else if is_sequence(cards) {
            ThirteenCombination::Sequence
        } else {
            ThirteenCombination::NonSense
        }
    } else if n == 6 {
        if is_sequence(cards) {
            ThirteenCombination::Sequence
        } else if is_double_sequence(cards) {
            ThirteenCombination::DoubleSequence
        } else {
            ThirteenCombination::NonSense
        }
    } else if 5 <= n <= 13 {
        if is_sequence(cards) {
            ThirteenCombination::Sequence
        } else {
            ThirteenCombination::NonSense
        }
    } else {
        ThirteenCombination::NonSense
    }
}

pub proof fn lemma_ord_leq_total()
    ensures
        total_ordering(ord_leq()),
{
}

/// Two cards with the same sorting key are the same card.
pub proof fn lemma_suit_rank_key_unique(a: Card, b: Card)
    ensures
        suit_rank_key(a) == suit_rank_key(b) <==> a == b,
{
}

pub proof fn lemma_card_leq_total()
    ensures
        total_ordering(card_leq()),
{
    assert forall|a: Card, b: Card|
        #[trigger] card_leq()(a, b) && #[trigger] card_leq()(b, a) implies a == b by {
        lemma_suit_rank_key_unique(a, b);
    }
}

/// Position at which a number goes into a sorted list so that it stays sorted,
/// after all the numbers not greater than it.
fn ord_insert_position(v: &Vec<usize>, x: usize) -> (p: usize)
    requires
        sorted_by(v@, ord_leq()),
    ensures
        p <= v.len(),
        forall|i: int| 0 <= i < p ==> v@[i] <= x,
        forall|i: int| p <= i < v.len() ==> v@[i] > x,
{
    let mut p: usize = 0;
    while p < v.len() && v[p] <= x
        invariant
            p <= v.len(),
            sorted_by(v@, ord_leq()),
            forall|i: int| 0 <= i < p ==> v@[i] <= x,
        decreases v.len() - p,
    {
        p = p + 1;
    }
    assert forall|i: int| p <= i < v.len() implies v@[i] > x by {
        assert(ord_leq()(v@[p as int], v@[i]) || i == p);
    }
    p
}

/// The numbers of a list, sorted from small to large.
fn sort_ords(src: &Vec<usize>) -> (r: Vec<usize>)
    ensures
        r@ == src@.sort_by(ord_leq()),
{
    let mut r: Vec<usize> = Vec::new();
    let mut i: usize = 0;
    while i < src.len()
        invariant
            i <= src.len(),
            sorted_by(r@, ord_leq()),
            r@.to_multiset() == src@.take(i as int).to_multiset(),
        decreases src.len() - i,
    {
        let x = src[i];
        let p = ord_insert_position(&r, x);
        let ghost old_r = r@;
        r.insert(p, x);
        proof {
            old_r.insert_ensures(p as int, x);
            assert(src@.take(i + 1) =~= src@.take(i as int).push(x));
            assert(old_r.insert(p as int, x).to_multiset() =~= old_r.to_multiset().insert(x));
        }
        i = i + 1;
    }
    proof {
        assert(src@.take(src.len() as int) =~= src@);
        lemma_ord_leq_total();
        src@.lemma_sort_by_ensures(ord_leq());
        vstd::seq_lib::lemma_sorted_unique(r@, src@.sort_by(ord_leq()), ord_leq());
    }
    r
}


/// The sorting key of a card: by suit, then by rank.
fn sort_key(c: &Card) -> (k: usize)
    ensures
        k == suit_rank_key(*c),
{
    c.suit.ordinal() * 13 + c.rank.ordinal()
}

/// Position at which a card goes into a sorted list so that it stays sorted.
fn card_insert_position(v: &Vec<Card>, x: Card) -> (p: usize)
    requires
        sorted_by(v@, card_leq()),
    ensures
        p <= v.len(),
        forall|i: int| 0 <= i < p ==> suit_rank_key(v@[i]) <= suit_rank_key(x),
        forall|i: int| p <= i < v.len() ==> suit_rank_key(v@[i]) > suit_rank_key(x),
{
    let key = sort_key(&x);
    let mut p: usize = 0;
    while p < v.len() && sort_key(&v[p]) <= key
        invariant
            p <= v.len(),
            key == suit_rank_key(x),
            sorted_by(v@, card_leq()),
            forall|i: int| 0 <= i < p ==> suit_rank_key(v@[i]) <= suit_rank_key(x),
        decreases v.len() - p,
    {
        p = p + 1;
    }
    assert forall|i: int| p <= i < v.len() implies suit_rank_key(v@[i]) > suit_rank_key(x) by {
        assert(card_leq()(v@[p as int], v@[i]) || i == p);
    }
    p
}

/// The cards sorted by suit and then by rank, from low to high.
pub(crate) fn sorted_by_suit_then_rank(src: &[Card]) -> (r: Vec<Card>)
    ensures
        r@ == src@.sort_by(card_leq()),
{
    let mut r: Vec<Card> = Vec::new();
    let mut i: usize = 0;
    while i < src.len()
        invariant
            i <= src.len(),
            sorted_by(r@, card_leq()),
            r@.to_multiset() == src@.take(i as int).to_multiset(),
        decreases src.len() - i,
    {
        let x = src[i];
        let p = card_insert_position(&r, x);
        let ghost old_r = r@;
        r.insert(p, x);
        proof {
            old_r.insert_ensures(p as int, x);
            assert(src@.take(i + 1) =~= src@.take(i as int).push(x));
            assert(old_r.insert(p as int, x).to_multiset() =~= old_r.to_multiset().insert(x));
        }
        i = i + 1;
    }
    proof {
        assert(src@.take(src.len() as int) =~= src@);
        lemma_card_leq_total();
        src@.lemma_sort_by_ensures(card_leq());
        vstd::seq_lib::lemma_sorted_unique(r@, src@.sort_by(card_leq()), card_leq());
    }
    r
}

/// `SliceRandom::shuffle` of the rand crate, driven by the generator `rand::thread_rng()`:
/// puts the cards in a random order. It only swaps cards, so the same cards remain,
/// each as often as before; which order comes out is left open.
#[verifier::external_body]
fn shuffle_with_thread_rng(cards: &mut [Card])
    ensures
        final(cards)@.to_multiset() == old(cards)@.to_multiset(),
        final(cards)@.len() == old(cards)@.len(),
{
    cards.shuffle(&mut rand::thread_rng())
}

/// Returns cards of the specified rank
pub fn cards_of_rank(cards: &[Card], rank: Rank) -> (r: Vec<Card>)
    ensures
        r@ == cards@.filter(|c: Card| c.rank == rank),
{
    let mut r: Vec<Card> = Vec::new();
    let mut i: usize = 0;
    while i < cards.len()
        invariant
            i <= cards.len(),
            r@ == cards@.take(i as int).filter(|c: Card| c.rank == rank),
        decreases cards.len() - i,
    {
        let c = cards[i];
        proof {
            assert(cards@.take(i + 1) =~= cards@.take(i as int).push(c));
            cards@.take(i as int).lemma_filter_push(c, |c: Card| c.rank == rank);
        }
        if c.rank == rank {
            r.push(c);
        }
        i = i + 1;
    }
    assert(cards@.take(cards.len() as int) =~= cards@);
    r
}

/// Returns cards of the specified suit
pub fn cards_of_suit(cards: &[Card], suit: Suit) -> (r: Vec<Card>)
    ensures
        r@ == cards@.filter(|c: Card| c.suit == suit),
{
    let mut r: Vec<Card> = Vec::new();
    let mut i: usize = 0;
    while i < cards.len()
        invariant
            i <= cards.len(),
            r@ == cards@.take(i as int).filter(|c: Card| c.suit == suit),
        decreases cards.len() - i,
    {
        let c = cards[i];
        proof {
            assert(cards@.take(i + 1) =~= cards@.take(i as int).push(c));
            cards@.take(i as int).lemma_filter_push(c, |c: Card| c.suit == suit);
        }
        if c.suit == suit {
            r.push(c);
        }
        i = i + 1;
    }
    assert(cards@.take(cards.len() as int) =~= cards@);
    r
}

/// Shuffles the slice of cards: the same cards remain, in an order left to chance.
pub fn shuffle(cards: &mut [Card])
    ensures
        final(cards)@.to_multiset() == old(cards)@.to_multiset(),
        final(cards)@.len() == old(cards)@.len(),
{
    shuffle_with_thread_rng(cards)
}

/// The strengths of the ranks of the cards, sorted from weak to strong.
pub fn get_ords_rank(cards: &[Card]) -> (r: Vec<usize>)
    ensures
        r@ == sorted_rank_ords(cards@),
{
    let mut ords: Vec<usize> = Vec::new();
    let mut i: usize = 0;
    while i < cards.len()
        invariant
            i <= cards.len(),
            ords@ =~= rank_ords(cards@).take(i as int),
        decreases cards.len() - i,
    {
        ords.push(cards[i].rank.ordinal());
        i = i + 1;
    }
    assert(rank_ords(cards@).take(cards.len() as int) =~= rank_ords(cards@));
    sort_ords(&ords)
}

/// Whether all the numbers equal the first one.
pub fn balance_array(ords: Vec<usize>) -> (r: bool)
    ensures
        r == all_equal(ords@),
{
    let first = if ords.len() > 0 {
        ords[0]
    } else {
        0
    };
    let mut i: usize = 0;
    while i < ords.len()
        invariant
            i <= ords.len(),
            ords.len() > 0 ==> first == ords@[0],
            forall|j: int| 0 <= j < i ==> #[trigger] ords@[j] == first,
        decreases ords.len() - i,
    {
        if ords[i] != first {
            return false;
        }
        i = i + 1;
    }
    true
}

/// Whether each number is one more than the one before it.
pub fn is_number_sequence(ords: Vec<usize>) -> (r: bool)
    requires
        // a step down, where every earlier step went up by one, underflows
        no_descent_in_run(ords@),
    ensures
        r == consecutive(ords@),
{
    let mut i: usize = 1;
    while i < ords.len()
        invariant
            1 <= i,
            no_descent_in_run(ords@),
            forall|j: int| 1 <= j < i && j < ords.len() ==> #[trigger] ords@[j] == ords@[j - 1] + 1,
        decreases ords.len() - i,
    {
        let prev = ords[i - 1];
        let x = ords[i];
        assert(ords@[i - 1] <= ords@[i as int]);
        if x - prev != 1 {
            return false;
        }
        i = i + 1;
    }
    true
}

/// The ranks of the cards are all equal exactly when their sorted strengths all equal the first.
proof fn lemma_same_rank_sorted(cards: Seq<Card>)
    ensures
        all_equal(sorted_rank_ords(cards)) == same_rank(cards),
        sorted_by(sorted_rank_ords(cards), ord_leq()),
        sorted_rank_ords(cards).len() == cards.len(),
{
    let r = rank_ords(cards);
    let s = sorted_rank_ords(cards);
    lemma_ord_leq_total();
    r.lemma_sort_by_ensures(ord_leq());
    assert(s.to_multiset() == r.to_multiset());
    assert(s.len() == r.len()) by {
        assert(s.to_multiset().len() == r.to_multiset().len());
    }
    assert forall|x: usize| #[trigger] s.contains(x) <==> r.contains(x) by {
        assert(s.to_multiset().count(x) == r.to_multiset().count(x));
    }
    if all_equal(s) {
        assert forall|i: int, j: int|
            0 <= i < cards.len() && 0 <= j < cards.len() implies cards[i].rank == cards[j].rank by {
            assert(r[i] == cards[i].rank.spec_ordinal());
            assert(r[j] == cards[j].rank.spec_ordinal());
            assert(r.contains(r[i]));
            assert(r.contains(r[j]));
            assert(s.contains(r[i]));
            assert(s.contains(r[j]));
            let a = choose|a: int| 0 <= a < s.len() && s[a] == r[i];
            let b = choose|b: int| 0 <= b < s.len() && s[b] == r[j];
            assert(s[a] == s[0] && s[b] == s[0]);
        }
    }
    if same_rank(cards) && cards.len() > 0 {
        assert forall|i: int| 0 <= i < s.len() implies #[trigger] s[i] == s[0] by {
            assert(s.contains(s[i]));
            assert(s.contains(s[0]));
            assert(r.contains(s[i]));
            assert(r.contains(s[0]));
            let a = choose|a: int| 0 <= a < r.len() && r[a] == s[i];
            let b = choose|b: int| 0 <= b < r.len() && r[b] == s[0];
            assert(cards[a].rank == cards[0].rank && cards[b].rank == cards[0].rank);
            assert(r[a] == cards[a].rank.spec_ordinal());
            assert(r[b] == cards[b].rank.spec_ordinal());
        }
    }
}

/// Whether all the cards have the same rank.
pub fn all_cards_the_same_rank(cards: &[Card]) -> (r: bool)
    ensures
        r == same_rank(cards@),
{
    let ords = get_ords_rank(cards);
    proof {
        lemma_same_rank_sorted(cards@);
    }
    balance_array(ords)
}


/// Whether the cards form a sequence: no Two among them, and ranks that climb one step at a time.
pub fn is_sequences(cards: &[Card]) -> (r: bool)
    ensures
        r == is_sequence(cards@),
{
    let mut i: usize = 0;
    while i < cards.len()
        invariant
            i <= cards.len(),
            forall|j: int| 0 <= j < i ==> #[trigger] cards@[j].rank != Rank::Two,
        decreases cards.len() - i,
    {
        if cards[i].rank == Rank::Two {
            return false;
        }
        i = i + 1;
    }
    let ords = get_ords_rank(cards);
    proof {
        lemma_same_rank_sorted(cards@);
        let s = ords@;
        assert forall|k: int| 1 <= k < s.len() implies s[k - 1] <= #[trigger] s[k] by {
            assert(ord_leq()(s[k - 1], s[k]));
        }
    }
    is_number_sequence(ords)
}

/// Whether the cards form a double sequence: pairs of equal rank whose ranks climb one step at a time.
pub fn is_double_sequences(cards: &[Card]) -> (r: bool)
    ensures
        r == is_double_sequence(cards@),
{
    let ords = get_ords_rank(cards);
    let ghost s = ords@;
    proof {
        lemma_same_rank_sorted(cards@);
    }
    // every chunk of two holds equal numbers
    let mut is_three_pair = true;
    let mut j: usize = 0;
    while j < ords.len() / 2
        invariant
            s == ords@,
            j <= ords.len() / 2,
            is_three_pair == (forall|k: int| 0 <= k < j ==> #[trigger] s[2 * k] == s[2 * k + 1]),
        decreases ords.len() / 2 - j,
    {
        let chunk = vec![ords[2 * j], ords[2 * j + 1]];
        if !balance_array(chunk) {
            is_three_pair = false;
        }
        j = j + 1;
    }
    assert(is_three_pair == paired(s)) by {
        if is_three_pair {
            assert forall|k: int| 0 <= k && 2 * k + 1 < s.len() implies #[trigger] s[2 * k] == s[2 * k
                + 1] by {
                assert(k < j);
            }
        }
    }
    // the numbers at even positions
    let mut half_ords: Vec<usize> = Vec::new();
    let mut h: usize = 0;
    let half_len = ords.len() - ords.len() / 2;
    while h < half_len
        invariant
            s == ords@,
            half_len == s.len() - s.len() / 2,
            s.len() == ords.len(),
            h <= half_len,
            half_ords@ =~= Seq::new(h as nat, |k: int| s[2 * k]),
        decreases half_len - h,
    {
        assert(h + h < s.len());
        let idx: usize = h + h;
        half_ords.push(ords[idx]);
        h = h + 1;
    }
    assert(half_ords@ =~= even_positions(s));
    proof {
        assert forall|k: int| 1 <= k < half_ords@.len() implies half_ords@[k - 1]
            <= #[trigger] half_ords@[k] by {
            assert(ord_leq()(s[2 * (k - 1)], s[2 * k]));
        }
    }
    if is_three_pair && is_number_sequence(half_ords) {
        return true;
    }
    false
}

/// The combination that the cards form, or NonSense.
pub fn evaluate_combination(cards: &[Card]) -> (r: ThirteenCombination)
    ensures
        r == combination_of(cards@),
{
    let n = cards.len();
    if n == 1 {
        ThirteenCombination::Single
    } else if n == 2 {
        if all_cards_the_same_rank(cards) {
            return ThirteenCombination::Pair;
        }
        ThirteenCombination::NonSense
    } else if n == 3 {
        if all_cards_the_same_rank(cards) {
            return ThirteenCombination::Triple;
        }
        if is_sequences(cards) {
            return ThirteenCombination::Sequence;
        }
        ThirteenCombination::NonSense
    } else if n == 4 {
        if all_cards_the_same_rank(cards) {
            return ThirteenCombination::Quartet;
        }
        if is_sequences(cards) {
            return ThirteenCombination::Sequence;
        }
        ThirteenCombination::NonSense
    } else if n == 6 {
        if is_sequences(cards) {
            return ThirteenCombination::Sequence;
        }
        if is_double_sequences(cards) {
            return ThirteenCombination::DoubleSequence;
        }
        ThirteenCombination::NonSense
    } else if 5 <= n && n <= 13 {
        if is_sequences(cards) {
            return ThirteenCombination::Sequence;
        }
        ThirteenCombination::NonSense
    } else {
        ThirteenCombination::NonSense
    }
}


/// What a deck and a hand of cards have in common.
pub trait Cards {
    /// The cards held.
    spec fn card_seq(&self) -> Seq<Card>;

    /// Return the cards as a slice
    fn cards(&self) -> (r: &[Card])
        ensures
            r@ == self.card_seq(),
    ;

    /// Shuffle the cards into a random order
    fn shuffle(&mut self)
        ensures
            final(self).card_seq().to_multiset() == old(self).card_seq().to_multiset(),
            final(self).card_seq().len() == old(self).card_seq().len(),
    ;

    /// The combination that the cards form.
    fn get_combination(&self) -> (r: ThirteenCombination)
        ensures
            r == combination_of(self.card_seq()),
    {
        evaluate_combination(self.cards())
    }

    /// Whether the cards form any combination.
    fn is_in_combination(&self) -> (r: bool)
        ensures
            r == (combination_of(self.card_seq()) != ThirteenCombination::NonSense),
    {
        let combo = evaluate_combination(self.cards());

        if let ThirteenCombination::NonSense = combo {
            return false;
        }

        true
    }

    /// Sort the cards by suit and then by rank (low to high)
    fn sort_suit_ascending_rank(&mut self)
        ensures
            final(self).card_seq() == old(self).card_seq().sort_by(card_leq()),
    ;
}

/// Reordering the cards reorders the strengths of their ranks in the same way.
proof fn lemma_rank_ords_permutation(a: Seq<Card>, b: Seq<Card>)
    requires
        a.to_multiset() == b.to_multiset(),
    ensures
        rank_ords(a).to_multiset() == rank_ords(b).to_multiset(),
    decreases a.len(),
{
    broadcast use vstd::multiset::group_multiset_axioms;
    broadcast use vstd::seq_lib::to_multiset_remove;

    if a.len() == 0 {
        assert(b.to_multiset().len() == 0);
        assert(b.len() == 0);
        assert(rank_ords(a) =~= rank_ords(b));
    } else {
        let x = a.last();
        assert(a.to_multiset().contains(x)) by {
            assert(a.contains(x)) by {
                assert(a[a.len() - 1] == x);
            }
        }
        assert(b.contains(x));
        let i = choose|i: int| 0 <= i < b.len() && b[i] == x;
        let a2 = a.drop_last();
        let b2 = b.remove(i);
        assert(a =~= a2.push(x));
        assert(a2.to_multiset() =~= a.to_multiset().remove(x));
        assert(b2.to_multiset() == b.to_multiset().remove(x));
        lemma_rank_ords_permutation(a2, b2);
        assert(rank_ords(a) =~= rank_ords(a2).push(x.rank.spec_ordinal()));
        assert(rank_ords(b2) =~= rank_ords(b).remove(i));
        assert(rank_ords(b).to_multiset() =~= rank_ords(b2).to_multiset().insert(x.rank.spec_ordinal())) by {
            assert(rank_ords(b)[i] == x.rank.spec_ordinal());
            assert(rank_ords(b).remove(i).to_multiset() == rank_ords(b).to_multiset().remove(x.rank.spec_ordinal()));
            assert(rank_ords(b).to_multiset().contains(x.rank.spec_ordinal())) by {
                assert(rank_ords(b).contains(x.rank.spec_ordinal()));
            }
        }
    }
}

/// The combination that cards form does not depend on the order in which
/// they are given.
pub proof fn lemma_combination_order_free(a: Seq<Card>, b: Seq<Card>)
    requires
        a.to_multiset() == b.to_multiset(),
    ensures
        combination_of(a) == combination_of(b),
{
    broadcast use vstd::multiset::group_multiset_axioms;

    a.to_multiset_ensures();
    b.to_multiset_ensures();
    lemma_rank_ords_permutation(a, b);
    lemma_ord_leq_total();
    rank_ords(a).lemma_sort_by_ensures(ord_leq());
    rank_ords(b).lemma_sort_by_ensures(ord_leq());
    vstd::seq_lib::lemma_sorted_unique(sorted_rank_ords(a), sorted_rank_ords(b), ord_leq());
    assert(sorted_rank_ords(a) == sorted_rank_ords(b));
    assert(same_rank(a) == same_rank(b)) by {
        assert forall|i: int, j: int| 0 <= i < b.len() && 0 <= j < b.len() && same_rank(a) implies b[i].rank == b[j].rank by {
            assert(b.contains(b[i]) && b.contains(b[j]));
            assert(b.to_multiset().count(b[i]) > 0 && b.to_multiset().count(b[j]) > 0);
            assert(a.contains(b[i]) && a.contains(b[j]));
        }
        assert forall|i: int, j: int| 0 <= i < a.len() && 0 <= j < a.len() && same_rank(b) implies a[i].rank == a[j].rank by {
            assert(a.contains(a[i]) && a.contains(a[j]));
            assert(a.to_multiset().count(a[i]) > 0 && a.to_multiset().count(a[j]) > 0);
            assert(b.contains(a[i]) && b.contains(a[j]));
        }
    }
    assert(no_two(a) == no_two(b)) by {
        assert forall|i: int| 0 <= i < b.len() && no_two(a) implies b[i].rank != Rank::Two by {
            assert(b.contains(b[i]));
            assert(b.to_multiset().count(b[i]) > 0);
            assert(a.contains(b[i]));
        }
        assert forall|i: int| 0 <= i < a.len() && no_two(b) implies a[i].rank != Rank::Two by {
            assert(a.contains(a[i]));
            assert(a.to_multiset().count(a[i]) > 0);
            assert(b.contains(a[i]));
        }
    }
}

/// Sorting puts cards of a lower suit first, and within one suit the weaker
/// rank first (so a Two comes last in its suit).
pub proof fn lemma_sort_order(a: Card, b: Card)
    ensures
        card_leq()(a, b) <==> (a.suit.spec_ordinal() < b.suit.spec_ordinal() || (a.suit == b.suit
            && a.rank.spec_ordinal() <= b.rank.spec_ordinal())),
{
}

/// The first card of sorted cards is one of them, of the lowest suit among
/// them, and of the weakest rank among their cards of that suit.
pub proof fn lemma_first_sorted_card(cs: Seq<Card>)
    requires
        cs.len() > 0,
    ensures
        cs.contains(cs.sort_by(card_leq())[0]),
        forall|i: int|
            0 <= i < cs.len() ==> {
                let f = cs.sort_by(card_leq())[0];
                &&& f.suit.spec_ordinal() <= (#[trigger] cs[i]).suit.spec_ordinal()
                &&& cs[i].suit == f.suit ==> f.rank.spec_ordinal() <= cs[i].rank.spec_ordinal()
            },
{
    broadcast use vstd::multiset::group_multiset_axioms;

    let s = cs.sort_by(card_leq());
    lemma_card_leq_total();
    cs.lemma_sort_by_ensures(card_leq());
    cs.to_multiset_ensures();
    s.to_multiset_ensures();
    assert(s.len() == cs.len()) by {
        assert(s.to_multiset().len() == cs.to_multiset().len());
    }
    assert(s.to_multiset().count(s[0]) > 0) by {
        assert(s.contains(s[0]));
    }
    assert(cs.contains(s[0]));
    assert forall|i: int| 0 <= i < cs.len() implies {
        let f = s[0];
        &&& f.suit.spec_ordinal() <= (#[trigger] cs[i]).suit.spec_ordinal()
        &&& cs[i].suit == f.suit ==> f.rank.spec_ordinal() <= cs[i].rank.spec_ordinal()
    } by {
        assert(cs.contains(cs[i]));
        assert(cs.to_multiset().count(cs[i]) > 0);
        assert(s.contains(cs[i]));
        let j = choose|j: int| 0 <= j < s.len() && s[j] == cs[i];
        if j > 0 {
            assert(card_leq()(s[0], s[j]));
        }
        lemma_sort_order(s[0], s[j]);
    }
}

/// Cards of five to thirteen ranks, or three or four, that climb one step at
/// a time with no Two among them form a sequence.
pub proof fn lemma_runs_are_sequences(cards: Seq<Card>)
    requires
        is_sequence(cards),
        3 <= cards.len() <= 13,
    ensures
        combination_of(cards) == ThirteenCombination::Sequence,
{
    lemma_same_rank_sorted(cards);
    let s = sorted_rank_ords(cards);
    assert(s[1] == s[0] + 1);
    assert(!all_equal(s)) by {
        assert(s[1] != s[0]);
    }
}

} // verus!
