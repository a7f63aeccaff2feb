use vstd::prelude::*;

use crate::components::card::{card_of_chars, card_str, lemma_card_str_round_trip, lemma_ordinal_unique, Card};
use crate::components::cards::{
    card_leq, combination_of, lemma_card_leq_total, shuffle,
    sorted_by_suit_then_rank, Cards, ThirteenCombination,
};
use crate::text::push_char;

verus! {

broadcast use vstd::seq_lib::group_to_multiset_ensures;

/// The pieces of a text between the separators, as `str::split` gives them:
/// an empty text gives one empty piece.
pub open spec fn split_on(s: Seq<char>, sep: char) -> Seq<Seq<char>>
    decreases s.len(),
{
    if s.len() == 0 {
        seq![Seq::empty()]
    } else {
        let p = split_on(s.drop_last(), sep);
        if s.last() == sep {
            p.push(Seq::empty())
        } else {
            p.update(p.len() - 1, p.last().push(s.last()))
        }
    }
}

/// The short names of the cards, separated by commas: "3C,TH,AS".
pub open spec fn join_cards(cs: Seq<Card>) -> Seq<char>
    decreases cs.len(),
{
    if cs.len() == 0 {
        Seq::empty()
    } else if cs.len() == 1 {
        card_str(cs[0])
    } else {
        join_cards(cs.drop_last()) + seq![','] + card_str(cs.last())
    }
}

/// The cards that the comma-separated short names stand for, where each names a card.
pub open spec fn cards_of_text(s: Seq<char>) -> Seq<Card> {
    split_on(s, ',').map_values(|p: Seq<char>| card_of_chars(p)->0)
}

/// Every comma-separated piece of the text names a card.
pub open spec fn names_cards(s: Seq<char>) -> bool {
    forall|i: int| 0 <= i < split_on(s, ',').len() ==> #[trigger] card_of_chars(split_on(s, ',')[i]) is Some
}

/// The cards with the first card equal to `c`, if any, taken out.
pub open spec fn remove_first(s: Seq<Card>, c: Card) -> Seq<Card>
    decreases s.len(),
{
    if s.len() == 0 {
        s
    } else if s[0] == c {
        s.drop_first()
    } else {
        seq![s[0]] + remove_first(s.drop_first(), c)
    }
}

/// The cards after taking out, one after another, the first instance of each card of `removed`.
pub open spec fn remove_each_first(s: Seq<Card>, removed: Seq<Card>) -> Seq<Card>
    decreases removed.len(),
{
    if removed.len() == 0 {
        s
    } else {
        remove_first(remove_each_first(s, removed.drop_last()), removed.last())
    }
}

/// The cards after taking out every card equal to a card of `removed`.
pub open spec fn remove_every(s: Seq<Card>, removed: Seq<Card>) -> Seq<Card> {
    s.filter(|x: Card| !removed.contains(x))
}

/// The sum of the ordinals of the cards.
pub open spec fn ordinal_sum(cs: Seq<Card>) -> nat
    decreases cs.len(),
{
    if cs.len() == 0 {
        0
    } else {
        ordinal_sum(cs.drop_last()) + cs.last().spec_ordinal() as nat
    }
}

/// A split always has at least one piece; appending a separator opens a new
/// empty piece, appending another character extends the last piece.
pub proof fn lemma_split_step(s: Seq<char>, sep: char, c: char)
    ensures
        split_on(s, sep).len() >= 1,
        c == sep ==> split_on(s.push(c), sep) == split_on(s, sep).push(Seq::empty()),
        c != sep ==> split_on(s.push(c), sep) == split_on(s, sep).update(
            split_on(s, sep).len() - 1,
            split_on(s, sep).last().push(c),
        ),
    decreases s.len(),
{
    if s.len() > 0 {
        lemma_split_step(s.drop_last(), sep, s.last());
    }
    assert(s.push(c).drop_last() =~= s);
}

/// Appending a text without separators extends the last piece by it.
pub proof fn lemma_split_append_plain(s: Seq<char>, sep: char, u: Seq<char>)
    requires
        !u.contains(sep),
    ensures
        split_on(s + u, sep) == split_on(s, sep).update(
            split_on(s, sep).len() - 1,
            split_on(s, sep).last() + u,
        ),
    decreases u.len(),
{
    lemma_split_step(s, sep, sep);
    if u.len() == 0 {
        assert(s + u =~= s);
        assert(split_on(s, sep).last() + u =~= split_on(s, sep).last());
        assert(split_on(s, sep).update(split_on(s, sep).len() - 1, split_on(s, sep).last())
            =~= split_on(s, sep));
    } else {
        let v = u.drop_last();
        assert(!v.contains(sep)) by {
            if v.contains(sep) {
                let i = choose|i: int| 0 <= i < v.len() && v[i] == sep;
                assert(u[i] == sep);
            }
        }
        lemma_split_append_plain(s, sep, v);
        assert(u.last() != sep) by {
            assert(u[u.len() - 1] == u.last());
        }
        lemma_split_step(s + v, sep, u.last());
        assert((s + v).push(u.last()) =~= s + u);
        let p = split_on(s, sep);
        assert((p.last() + v).push(u.last()) =~= p.last() + u);
        assert(split_on(s + u, sep) =~= p.update(p.len() - 1, p.last() + u));
    }
}

/// Splitting the comma-separated names of cards gives back the name of each card.
pub proof fn lemma_split_join(cs: Seq<Card>)
    requires
        cs.len() > 0,
    ensures
        split_on(join_cards(cs), ',') =~= cs.map_values(|c: Card| card_str(c)),
    decreases cs.len(),
{
    if cs.len() == 1 {
        lemma_card_str_round_trip(cs[0]);
        lemma_split_append_plain(Seq::empty(), ',', card_str(cs[0]));
        assert(Seq::<char>::empty() + card_str(cs[0]) =~= card_str(cs[0]));
        assert(split_on(Seq::<char>::empty(), ',') =~= seq![Seq::<char>::empty()]);
        assert(Seq::<char>::empty() + card_str(cs[0]) =~= card_str(cs[0]));
    } else {
        let front = cs.drop_last();
        lemma_split_join(front);
        let j = join_cards(front);
        lemma_split_step(j, ',', ',');
        lemma_card_str_round_trip(cs.last());
        lemma_split_append_plain(j.push(','), ',', card_str(cs.last()));
        assert(j + seq![','] =~= j.push(','));
        assert(Seq::<char>::empty() + card_str(cs.last()) =~= card_str(cs.last()));
    }
}

/// Reading back the text of a non-empty hand gives the same cards.
pub proof fn lemma_hand_text_round_trip(cs: Seq<Card>)
    requires
        cs.len() > 0,
    ensures
        names_cards(join_cards(cs)),
        cards_of_text(join_cards(cs)) == cs,
{
    lemma_split_join(cs);
    let p = split_on(join_cards(cs), ',');
    assert forall|i: int| 0 <= i < p.len() implies #[trigger] card_of_chars(p[i]) is Some
        && card_of_chars(p[i])->0 == cs[i] by {
        lemma_card_str_round_trip(cs[i]);
    }
    assert(cards_of_text(join_cards(cs)) =~= cs);
}


/// The pieces of a prefix of a text are the first pieces of the text, the
/// last of them possibly cut short.
pub proof fn lemma_split_prefix(s: Seq<char>, sep: char, i: int)
    requires
        0 <= i <= s.len(),
    ensures
        split_on(s.take(i), sep).len() <= split_on(s, sep).len(),
        forall|k: int|
            0 <= k < split_on(s.take(i), sep).len() - 1 ==> #[trigger] split_on(s.take(i), sep)[k]
                == split_on(s, sep)[k],
    decreases s.len() - i,
{
    if i == s.len() {
        assert(s.take(i) =~= s);
    } else {
        lemma_split_prefix(s, sep, i + 1);
        lemma_split_step(s.take(i), sep, s[i]);
        assert(s.take(i + 1) =~= s.take(i).push(s[i]));
        let a = split_on(s.take(i), sep);
        let a1 = split_on(s.take(i + 1), sep);
        assert forall|k: int| 0 <= k < a.len() - 1 implies #[trigger] a[k] == split_on(s, sep)[k] by {
            assert(a1[k] == a[k]);
        }
    }
}

/// Taking out the first instance of a card is taking out the card at its first position.
proof fn lemma_remove_first_at(s: Seq<Card>, c: Card, p: int)
    requires
        0 <= p <= s.len(),
        forall|k: int| 0 <= k < p ==> s[k] != c,
        p < s.len() ==> s[p] == c,
    ensures
        p < s.len() ==> remove_first(s, c) =~= s.remove(p),
        p == s.len() ==> remove_first(s, c) =~= s,
    decreases s.len(),
{
    if s.len() > 0 && p > 0 {
        lemma_remove_first_at(s.drop_first(), c, p - 1);
        if p < s.len() {
            assert(seq![s[0]] + s.drop_first().remove(p - 1) =~= s.remove(p));
        } else {
            assert(seq![s[0]] + s.drop_first() =~= s);
        }
    }
}

/// Taking out the first instance of `c` leaves the cards other than `c` as they were.
proof fn lemma_remove_first_filter(s: Seq<Card>, c: Card)
    ensures
        remove_first(s, c).filter(|x: Card| x != c) == s.filter(|x: Card| x != c),
    decreases s.len(),
{
    let ne = |x: Card| x != c;
    if s.len() > 0 {
        lemma_filter_prepend(s.drop_first(), s[0], ne);
        assert(seq![s[0]] + s.drop_first() =~= s);
        if s[0] != c {
            lemma_remove_first_filter(s.drop_first(), c);
            lemma_filter_prepend(remove_first(s.drop_first(), c), s[0], ne);
        }
    }
}

/// Filtering keeps the first element exactly when it passes.
proof fn lemma_filter_prepend(s: Seq<Card>, x: Card, p: spec_fn(Card) -> bool)
    ensures
        (seq![x] + s).filter(p) == if p(x) {
            seq![x] + s.filter(p)
        } else {
            s.filter(p)
        },
    decreases s.len(),
{
    (seq![x] + s).lemma_filter_eq_filter_alt(p);
    s.lemma_filter_eq_filter_alt(p);
    reveal_with_fuel(Seq::filter, 1);
    if s.len() == 0 {
        assert(seq![x] + s =~= seq![x]);
        assert(seq![x].drop_last() =~= Seq::<Card>::empty());
        assert(Seq::<Card>::empty().filter(p) =~= Seq::<Card>::empty());
        assert(seq![x] + Seq::<Card>::empty() =~= seq![x]);
    } else {
        lemma_filter_prepend(s.drop_last(), x, p);
        assert((seq![x] + s).drop_last() =~= seq![x] + s.drop_last());
        assert((seq![x] + s).last() == s.last());
        if p(x) {
            assert((seq![x] + s.drop_last().filter(p)).push(s.last()) =~= seq![x] + s.drop_last().filter(p).push(s.last()));
        }
    }
}


/// Filtering by "not among the first i+1 cards" is filtering by "not among the
/// first i" and then "not the (i+1)-th".
proof fn lemma_filter_removed_step(s: Seq<Card>, removed: Seq<Card>, i: int)
    requires
        0 <= i < removed.len(),
    ensures
        s.filter(|x: Card| !removed.take(i).contains(x)).filter(|x: Card| x != removed[i])
            == s.filter(|x: Card| !removed.take(i + 1).contains(x)),
    decreases s.len(),
{
    let p = |x: Card| !removed.take(i).contains(x);
    let q = |x: Card| x != removed[i];
    let pq = |x: Card| !removed.take(i + 1).contains(x);
    assert forall|x: Card| #[trigger] pq(x) == (p(x) && q(x)) by {
        assert(removed.take(i + 1) =~= removed.take(i).push(removed[i]));
        if removed.take(i).contains(x) {
            let k = choose|k: int| 0 <= k < i && #[trigger] removed.take(i)[k] == x;
            assert(removed.take(i + 1)[k] == x);
        }
        if removed.take(i + 1).contains(x) && x != removed[i] {
            let k = choose|k: int| 0 <= k < i + 1 && #[trigger] removed.take(i + 1)[k] == x;
            assert(removed.take(i)[k] == x);
        }
        if x == removed[i] {
            assert(removed.take(i + 1)[i] == x);
        }
    }
    if s.len() > 0 {
        let t = s.drop_last();
        let x = s.last();
        lemma_filter_removed_step(t, removed, i);
        assert(t.push(x) =~= s);
        t.lemma_filter_push(x, p);
        t.lemma_filter_push(x, pq);
        t.filter(p).lemma_filter_push(x, q);
    } else {
        assert(s.filter(p) =~= Seq::<Card>::empty()) by {
            s.lemma_filter_eq_filter_alt(p);
        }
        assert(s.filter(pq) =~= Seq::<Card>::empty()) by {
            s.lemma_filter_eq_filter_alt(pq);
        }
        assert(s.filter(p).filter(q) =~= Seq::<Card>::empty()) by {
            s.filter(p).lemma_filter_eq_filter_alt(q);
        }
    }
}

/// A hand of cards, in the order in which they were added.
#[derive(Clone, PartialEq, Eq)]
pub struct Hand {
    pub cards: Vec<Card>,
}

impl Cards for Hand {
    open spec fn card_seq(&self) -> Seq<Card> {
        self.cards@
    }

    fn cards(&self) -> (r: &[Card]) {
        self.cards.as_slice()
    }

    fn shuffle(&mut self) {
        shuffle(self.cards.as_mut_slice());
    }

    fn sort_suit_ascending_rank(&mut self) {
        self.cards = sorted_by_suit_then_rank(self.cards.as_slice());
    }
}

impl Default for Hand {
    fn default() -> (h: Self)
        ensures
            h.cards@ == Seq::<Card>::empty(),
    {
        Hand { cards: Vec::new() }
    }
}

impl Hand {
    /// Create an empty hand
    pub fn new() -> (h: Self)
        ensures
            h.cards@ == Seq::<Card>::empty(),
    {
        Hand { cards: Vec::new() }
    }

    /// Makes a `Hand` from an existing hand
    pub fn from_hand(hand: &Hand) -> (h: Hand)
        ensures
            h.cards@ == hand.cards@,
    {
        Hand::from_cards(hand.cards())
    }

    /// Makes a `Hand` from a slice
    pub fn from_cards(cards: &[Card]) -> (h: Hand)
        ensures
            h.cards@ == cards@,
    {
        Hand { cards: vstd::slice::slice_to_vec(cards) }
    }

    /// Reads a hand from the short names of its cards separated by commas, such as "3C,TH".
    pub fn from_str(cards_str: &str) -> (h: Hand)
        requires
            // a piece that names no card makes the reading panic
            names_cards(cards_str@),
        ensures
            h.cards@ == cards_of_text(cards_str@),
    {
        let ghost s = cards_str@;
        let n = cards_str.unicode_len();
        let mut cards: Vec<Card> = Vec::new();
        let mut start: usize = 0;
        let mut i: usize = 0;
        while i < n
            invariant
                n == s.len(),
                s == cards_str@,
                names_cards(s),
                start <= i <= n,
                split_on(s.take(i as int), ',').last() == s.subrange(start as int, i as int),
                cards@ =~= split_on(s.take(i as int), ',').drop_last().map_values(
                    |p: Seq<char>| card_of_chars(p)->0,
                ),
            decreases n - i,
        {
            let c = cards_str.get_char(i);
            proof {
                lemma_split_step(s.take(i as int), ',', c);
                assert(s.take(i + 1) =~= s.take(i as int).push(c));
            }
            if c == ',' {
                let piece = cards_str.substring_char(start, i);
                proof {
                    let a = split_on(s.take(i + 1), ',');
                    lemma_split_prefix(s, ',', i + 1);
                    assert(a[a.len() - 2] == split_on(s, ',')[a.len() - 2]);
                    assert(card_of_chars(split_on(s, ',')[a.len() - 2]) is Some);
                }
                let card = Card::from_str(piece).unwrap();
                cards.push(card);
                start = i + 1;
            }
            i = i + 1;
        }
        let piece = cards_str.substring_char(start, n);
        proof {
            assert(s.take(n as int) =~= s);
            lemma_split_step(s, ',', ',');
            let a = split_on(s, ',');
            assert(card_of_chars(a[a.len() - 1]) is Some);
        }
        let card = Card::from_str(piece).unwrap();
        cards.push(card);
        proof {
            let a = split_on(s, ',');
            assert(a =~= a.drop_last().push(a.last()));
        }
        Hand { cards }
    }

    /// Reads a hand as the server stores it: an empty text is an empty hand,
    /// any other text lists the short names of the cards separated by commas.
    pub fn from_string(cards_str: &str) -> (h: Hand)
        requires
            // a piece that names no card makes the reading panic
            cards_str@.len() == 0 || names_cards(cards_str@),
        ensures
            h.cards@ == (if cards_str@.len() == 0 {
                Seq::<Card>::empty()
            } else {
                cards_of_text(cards_str@)
            }),
    {
        if cards_str.is_empty() {
            return Hand::new();
        }
        Hand::from_str(cards_str)
    }

    /// Constructs a `Hand` from a slice of strings with abbreviated card rank / suit values
    pub fn from_strings(card_slice: &[&str]) -> (h: Hand)
        requires
            // an unknown card makes the reading panic
            forall|i: int| 0 <= i < card_slice@.len() ==> #[trigger] card_of_chars(card_slice@[i]@) is Some,
        ensures
            h.cards@ == card_slice@.map_values(|s: &str| card_of_chars(s@)->0),
    {
        let mut cards: Vec<Card> = Vec::new();
        let mut i: usize = 0;
        while i < card_slice.len()
            invariant
                i <= card_slice.len(),
                forall|k: int| 0 <= k < card_slice@.len() ==> #[trigger] card_of_chars(card_slice@[k]@) is Some,
                cards@ =~= card_slice@.take(i as int).map_values(|s: &str| card_of_chars(s@)->0),
            decreases card_slice.len() - i,
        {
            assert(card_of_chars(card_slice@[i as int]@) is Some);
            let card = Card::from_str(card_slice[i]).unwrap();
            cards.push(card);
            i = i + 1;
        }
        assert(card_slice@.take(card_slice.len() as int) =~= card_slice@);
        Hand { cards }
    }

    /// The short names of the cards separated by commas, such as "3C,TH".
    pub fn to_string(&mut self) -> (s: String)
        ensures
            s@ == join_cards(old(self).cards@),
            *final(self) == *old(self),
    {
        let mut s = String::new();
        let mut i: usize = 0;
        while i < self.cards.len()
            invariant
                i <= self.cards.len(),
                s@ =~= join_cards(self.cards@.take(i as int)),
            decreases self.cards.len() - i,
        {
            let c = self.cards[i];
            proof {
                assert(self.cards@.take(i + 1).drop_last() =~= self.cards@.take(i as int));
            }
            if i > 0 {
                push_char(&mut s, ',');
            }
            push_char(&mut s, c.rank.to_char());
            push_char(&mut s, c.suit.to_char());
            i = i + 1;
        }
        assert(self.cards@.take(self.cards.len() as int) =~= self.cards@);
        s
    }

    pub fn is_empty(&self) -> (b: bool)
        ensures
            b == (self.cards@.len() == 0),
    {
        self.cards.is_empty()
    }

    /// Adds one `Card` to the `Hand`
    pub fn push_card(&mut self, card: Card)
        ensures
            final(self).cards@ == old(self).cards@.push(card),
    {
        self.cards.push(card);
    }

    /// Adds zero or more cards to the `Hand`
    pub fn push_cards(&mut self, cards: &[Card])
        ensures
            final(self).cards@ == old(self).cards@ + cards@,
    {
        let ghost start = self.cards@;
        let mut i: usize = 0;
        while i < cards.len()
            invariant
                i <= cards.len(),
                self.cards@ =~= start + cards@.take(i as int),
            decreases cards.len() - i,
        {
            self.cards.push(cards[i]);
            i = i + 1;
        }
        assert(cards@.take(cards.len() as int) =~= cards@);
    }

    /// Adds zero or more cards from some other `Hand`
    pub fn push_hand(&mut self, other: &Hand)
        ensures
            final(self).cards@ == old(self).cards@ + other.cards@,
    {
        self.push_cards(other.cards());
    }

    /// Returns the number of cards
    pub fn len(&self) -> (n: usize)
        ensures
            n == self.cards@.len(),
    {
        self.cards.len()
    }

    /// The sum of the ordinals of the cards.
    pub fn total_value(&self) -> (v: usize)
        requires
            ordinal_sum(self.cards@) <= usize::MAX,
        ensures
            v == ordinal_sum(self.cards@),
    {
        let mut v: usize = 0;
        let mut i: usize = 0;
        while i < self.cards.len()
            invariant
                i <= self.cards.len(),
                ordinal_sum(self.cards@) <= usize::MAX,
                v == ordinal_sum(self.cards@.take(i as int)),
            decreases self.cards.len() - i,
        {
            proof {
                assert(self.cards@.take(i + 1).drop_last() =~= self.cards@.take(i as int));
                lemma_ordinal_sum_prefix(self.cards@, i + 1);
            }
            v = v + self.cards[i].ordinal();
            i = i + 1;
        }
        assert(self.cards@.take(self.cards.len() as int) =~= self.cards@);
        v
    }

    /// Returns the highest value card of the hand
    pub fn highest_value(&self) -> (c: &Card)
        requires
            self.cards@.len() > 0,
        ensures
            self.cards@.contains(*c),
            forall|i: int| 0 <= i < self.cards@.len() ==> #[trigger] self.cards@[i].spec_ordinal() <= c.spec_ordinal(),
    {
        let mut best: usize = 0;
        let mut i: usize = 1;
        while i < self.cards.len()
            invariant
                1 <= i <= self.cards.len(),
                best < self.cards.len(),
                forall|k: int| 0 <= k < i ==> #[trigger] self.cards@[k].spec_ordinal() <= self.cards@[best as int].spec_ordinal(),
            decreases self.cards.len() - i,
        {
            if self.cards[i].ordinal() >= self.cards[best].ordinal() {
                best = i;
            }
            i = i + 1;
        }
        &self.cards[best]
    }

    /// Clears the `Hand` (makes it empty)
    pub fn clear(&mut self)
        ensures
            final(self).cards@ == Seq::<Card>::empty(),
    {
        self.cards.clear();
    }

    /// Sorts the hand and returns its first card: the lowest rank of the lowest suit.
    pub fn smallest_card(&mut self) -> (c: Card)
        requires
            old(self).cards@.len() > 0,
        ensures
            final(self).cards@ == old(self).cards@.sort_by(card_leq()),
            c == final(self).cards@[0],
    {
        self.sort();
        proof {
            lemma_sorted_len(old(self).cards@);
        }
        self.cards[0]
    }

    /// Sorts the hand and takes out its first card: the lowest rank of the lowest suit.
    pub fn remove_smallest_card(&mut self) -> (c: Card)
        requires
            old(self).cards@.len() > 0,
        ensures
            c == old(self).cards@.sort_by(card_leq())[0],
            final(self).cards@ == old(self).cards@.sort_by(card_leq()).drop_first(),
    {
        self.sort();
        proof {
            lemma_sorted_len(old(self).cards@);
        }
        let c = self.cards.remove(0);
        assert(old(self).cards@.sort_by(card_leq()).remove(0) =~= old(self).cards@.sort_by(card_leq()).drop_first());
        c
    }

    /// Removes a `Card` from the `Hand` and returns it
    pub fn remove(&mut self, index: usize) -> (c: Card)
        requires
            index < old(self).cards@.len(),
        ensures
            c == old(self).cards@[index as int],
            final(self).cards@ == old(self).cards@.remove(index as int),
    {
        self.cards.remove(index)
    }

    /// Removes the first instance of every matching card from the `Hand`
    pub fn remove_cards(&mut self, cards: &[Card])
        ensures
            final(self).cards@ == remove_each_first(old(self).cards@, cards@),
    {
        let ghost start = self.cards@;
        let mut i: usize = 0;
        while i < cards.len()
            invariant
                i <= cards.len(),
                self.cards@ == remove_each_first(start, cards@.take(i as int)),
            decreases cards.len() - i,
        {
            let _ = self.remove_card(&cards[i]);
            proof {
                assert(cards@.take(i + 1).drop_last() =~= cards@.take(i as int));
            }
            i = i + 1;
        }
        assert(cards@.take(cards.len() as int) =~= cards@);
    }

    /// Removes the every instance of every matching card from the `Hand`
    pub fn remove_all_cards(&mut self, cards: &[Card])
        ensures
            final(self).cards@ == remove_every(old(self).cards@, cards@),
    {
        let ghost start = self.cards@;
        let mut i: usize = 0;
        proof {
            assert(start.filter(|x: Card| !cards@.take(0).contains(x)) =~= start) by {
                assert(cards@.take(0) =~= Seq::<Card>::empty());
                lemma_filter_all(start, |x: Card| !cards@.take(0).contains(x));
            }
        }
        while i < cards.len()
            invariant
                i <= cards.len(),
                self.cards@ == start.filter(|x: Card| !cards@.take(i as int).contains(x)),
            decreases cards.len() - i,
        {
            let c = cards[i];
            let ghost target = start.filter(|x: Card| !cards@.take(i as int).contains(x)).filter(
                |x: Card| x != c,
            );
            proof {
                lemma_filter_removed_step(start, cards@, i as int);
                assert((|x: Card| x != cards@[i as int]) =~= (|x: Card| x != c));
            }
            loop
                invariant
                    self.cards@.filter(|x: Card| x != c) == target,
                ensures
                    self.cards@.filter(|x: Card| x != c) == target,
                    !self.cards@.contains(c),
                decreases self.cards@.len(),
            {
                let ghost before = self.cards@;
                let found = self.remove_card(&c);
                proof {
                    lemma_remove_first_filter(before, c);
                }
                if !found {
                    break;
                }
            }
            proof {
                assert forall|x: Card| self.cards@.contains(x) implies (|x: Card| x != c)(x) by {}
                lemma_filter_all(self.cards@, |x: Card| x != c);
                assert(self.cards@ == start.filter(|x: Card| !cards@.take(i + 1).contains(x)));
            }
            i = i + 1;
        }
        assert(cards@.take(cards.len() as int) =~= cards@);
    }

    /// Removes first instance of the matching card from the `Hand`
    pub fn remove_card(&mut self, card: &Card) -> (found: bool)
        ensures
            found == old(self).cards@.contains(*card),
            final(self).cards@ == remove_first(old(self).cards@, *card),
            found ==> final(self).cards@.len() < old(self).cards@.len(),
            !found ==> final(self).cards@ == old(self).cards@,
    {
        let mut pos: usize = 0;
        while pos < self.cards.len() && self.cards[pos] != *card
            invariant
                pos <= self.cards.len(),
                forall|k: int| 0 <= k < pos ==> self.cards@[k] != *card,
            decreases self.cards.len() - pos,
        {
            pos = pos + 1;
        }
        proof {
            lemma_remove_first_at(self.cards@, *card, pos as int);
        }
        if pos < self.cards.len() {
            let _ = self.cards.remove(pos);
            true
        } else {
            false
        }
    }

    /// Whether the hand holds the Three of Clubs.
    pub fn contain_3_c(&self) -> (b: bool)
        ensures
            b == self.cards@.contains(Card::make_3C_spec()),
    {
        let three_clubs = Card::make_3C();
        let mut i: usize = 0;
        while i < self.cards.len()
            invariant
                i <= self.cards.len(),
                three_clubs == Card::make_3C_spec(),
                forall|k: int| 0 <= k < i ==> self.cards@[k] != three_clubs,
            decreases self.cards.len() - i,
        {
            let c = self.cards[i];
            let same = match three_clubs.cmp_rank_suit(&c) {
                std::cmp::Ordering::Equal => true,
                _ => false,
            };
            proof {
                lemma_ordinal_unique(three_clubs, c);
            }
            if same {
                return true;
            }
            i = i + 1;
        }
        false
    }

    /// Sorts the cards by suit and then by rank, from low to high.
    pub fn sort(&mut self)
        ensures
            final(self).cards@ == old(self).cards@.sort_by(card_leq()),
    {
        self.sort_suit_ascending_rank();
    }

    /// Whether the cards form a combination.
    pub fn check_combination(&self) -> (b: bool)
        ensures
            b == (combination_of(self.cards@) != ThirteenCombination::NonSense),
    {
        self.is_in_combination()
    }
}

/// Filtering by a condition that every element meets keeps the whole sequence.
proof fn lemma_filter_all(s: Seq<Card>, p: spec_fn(Card) -> bool)
    requires
        forall|x: Card| s.contains(x) ==> p(x),
    ensures
        s.filter(p) =~= s,
    decreases s.len(),
{
    if s.len() > 0 {
        let t = s.drop_last();
        assert forall|x: Card| t.contains(x) implies p(x) by {
            let k = choose|k: int| 0 <= k < t.len() && t[k] == x;
            assert(s[k] == x);
            assert(s.contains(x));
        }
        lemma_filter_all(t, p);
        assert(t.push(s.last()) =~= s);
        t.lemma_filter_push(s.last(), p);
        assert(s.contains(s.last()));
    } else {
        s.lemma_filter_eq_filter_alt(p);
    }
}

/// Sorting keeps the number of cards.
proof fn lemma_sorted_len(s: Seq<Card>)
    ensures
        s.sort_by(card_leq()).len() == s.len(),
{
    lemma_card_leq_total();
    s.lemma_sort_by_ensures(card_leq());
    assert(s.sort_by(card_leq()).to_multiset().len() == s.to_multiset().len());
}

/// The sum of ordinals of a prefix grows by the next card's ordinal.
proof fn lemma_ordinal_sum_prefix(s: Seq<Card>, i: int)
    requires
        0 <= i <= s.len(),
    ensures
        ordinal_sum(s.take(i)) <= ordinal_sum(s),
    decreases s.len() - i,
{
    if i < s.len() {
        lemma_ordinal_sum_prefix(s, i + 1);
        assert(s.take(i + 1).drop_last() =~= s.take(i));
    } else {
        assert(s.take(i) =~= s);
    }
}


/// A text that names cards names at least one card.
pub proof fn lemma_names_cards_nonempty(s: Seq<char>)
    requires
        names_cards(s),
    ensures
        cards_of_text(s).len() >= 1,
{
    lemma_split_step(s, ',', ',');
}

} // verus!
