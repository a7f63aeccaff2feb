use vstd::multiset::Multiset;
use vstd::prelude::*;

use crate::components::card::{card_str, standard_deck, Card};
use crate::components::cards::{card_leq, shuffle, sorted_by_suit_then_rank, Cards};
use crate::components::hand::Hand;
use crate::text::push_char;

verus! {

broadcast use vstd::seq_lib::group_to_multiset_ensures;

/// The short names of the cards written one after another: "3CTHAS".
pub open spec fn concat_cards(cs: Seq<Card>) -> Seq<char>
    decreases cs.len(),
{
    if cs.len() == 0 {
        Seq::empty()
    } else {
        concat_cards(cs.drop_last()) + card_str(cs.last())
    }
}

/// The cards that dealing `n` cards from the undealt pile hands out, in the order
/// they are dealt: from the top (the end) of the pile down, as many as there are.
pub open spec fn dealt_run(undealt: Seq<Card>, n: nat) -> Seq<Card> {
    let k = if n <= undealt.len() { n } else { undealt.len() };
    Seq::new(k, |i: int| undealt[undealt.len() - 1 - i])
}

/// The undealt pile after dealing `n` cards from it.
pub open spec fn after_dealing(undealt: Seq<Card>, n: nat) -> Seq<Card> {
    let k = if n <= undealt.len() { n } else { undealt.len() };
    undealt.take(undealt.len() - k)
}

/// The `Deck` represents a deck of zero or more cards. A default deck is 52 playing cards.
/// Internally the deck consists of two stacks consisting of dealt and undealt cards. The dealt stack
/// receives cards as they are dealt from the undealt stack.
///
/// The deck may be `reset()` to return it to its original state. A deck may be `shuffle()`'d to randomize
/// its order.
///
/// A deck can contain more than one card with the same rank / suit combination although by default
/// it does not.
///
/// A deck cannot have more cards added or removed to it once it is created.
#[derive(Debug)]
pub struct Deck {
    /// A deck contains zero or more cards
    cards: Vec<Card>,
    /// Dealt cards are cards which have been dealt in calls but are still members of the deck
    /// they remain dealt until the deck is reshuffled or reset.
    dealt_cards: Vec<Card>,
}

impl Deck {
    /// The number of all the cards fits in a machine word.
    #[verifier::type_invariant]
    spec fn fits(&self) -> bool {
        self.cards@.len() + self.dealt_cards@.len() <= usize::MAX
    }

    /// The undealt pile; its end is the top, the next card to be dealt.
    pub closed spec fn undealt(&self) -> Seq<Card> {
        self.cards@
    }

    /// The dealt pile, in the order the cards were dealt.
    pub closed spec fn dealt(&self) -> Seq<Card> {
        self.dealt_cards@
    }

    /// All the cards of the deck, dealt or not.
    pub open spec fn all(&self) -> Multiset<Card> {
        self.undealt().to_multiset().add(self.dealt().to_multiset())
    }
}

impl Clone for Deck {
    fn clone(&self) -> (r: Self)
        ensures
            r.undealt() == self.undealt(),
            r.dealt() == self.dealt(),
    {
        proof {
            use_type_invariant(self);
        }
        Deck {
            cards: vstd::slice::slice_to_vec(self.cards.as_slice()),
            dealt_cards: vstd::slice::slice_to_vec(self.dealt_cards.as_slice()),
        }
    }
}

impl Cards for Deck {
    open spec fn card_seq(&self) -> Seq<Card> {
        self.undealt()
    }

    fn cards(&self) -> (r: &[Card]) {
        self.cards.as_slice()
    }

    fn shuffle(&mut self)
        ensures
            final(self).dealt() == old(self).dealt(),
    {
        proof {
            use_type_invariant(&*self);
        }
        let mut cards: Vec<Card> = Vec::new();
        std::mem::swap(&mut cards, &mut self.cards);
        shuffle(cards.as_mut_slice());
        self.cards = cards;
    }

    fn sort_suit_ascending_rank(&mut self)
        ensures
            final(self).dealt() == old(self).dealt(),
    {
        proof {
            use_type_invariant(&*self);
        }
        let sorted = sorted_by_suit_then_rank(self.cards.as_slice());
        proof {
            crate::components::cards::lemma_card_leq_total();
            self.cards@.lemma_sort_by_ensures(card_leq());
            assert(sorted@.to_multiset().len() == self.cards@.to_multiset().len());
        }
        self.cards = sorted;
    }
}


impl Deck {
    /// Creates a new `Deck` containing the standard set of 52 cards, shuffled
    pub fn new() -> (d: Deck)
        ensures
            d.undealt().to_multiset() == standard_deck().to_multiset(),
            d.undealt().len() == 52,
            d.dealt() == Seq::<Card>::empty(),
    {
        let all = Card::all_cards();
        Deck::from_cards(all.as_slice())
    }

    /// Creates a new `Deck` containing the specified cards, shuffled
    pub fn from_cards(cards: &[Card]) -> (d: Deck)
        ensures
            d.undealt().to_multiset() == cards@.to_multiset(),
            d.undealt().len() == cards@.len(),
            d.dealt() == Seq::<Card>::empty(),
    {
        let mut mut_cards = vstd::slice::slice_to_vec(cards);
        shuffle(mut_cards.as_mut_slice());
        let _n = mut_cards.len();
        Deck { cards: mut_cards, dealt_cards: Vec::new() }
    }

    /// A deck with the given undealt pile (its end the top) and dealt pile,
    /// as a stored deck is read back.
    pub fn from_piles(cards: Vec<Card>, dealt_cards: Vec<Card>) -> (d: Deck)
        requires
            cards@.len() + dealt_cards@.len() <= usize::MAX,
        ensures
            d.undealt() == cards@,
            d.dealt() == dealt_cards@,
    {
        Deck { cards, dealt_cards }
    }

    /// Returns the number of remaining undealt cards in the `Deck`
    pub fn undealt_count(&self) -> (n: usize)
        ensures
            n == self.undealt().len(),
    {
        self.cards.len()
    }

    /// Returns the number of dealt cards in the `Deck`
    pub fn dealt_count(&self) -> (n: usize)
        ensures
            n == self.dealt().len(),
    {
        self.dealt_cards.len()
    }

    /// Returns the number of cards, dealt or undealt, within the `Deck`
    pub fn count(&self) -> (n: usize)
        ensures
            n == self.undealt().len() + self.dealt().len(),
    {
        proof {
            use_type_invariant(self);
        }
        self.undealt_count() + self.dealt_count()
    }

    /// Returns the collection of dealt cards
    pub fn dealt_cards(&self) -> (r: &[Card])
        ensures
            r@ == self.dealt(),
    {
        self.dealt_cards.as_slice()
    }

    /// Tells you the top card (very next to be drawn) in the undealt deck
    /// without dealing it.
    pub fn top_card(&self) -> (r: Option<Card>)
        ensures
            r == (if self.undealt().len() > 0 {
                Some(self.undealt().last())
            } else {
                None
            }),
    {
        let n = self.cards.len();
        if n > 0 {
            Some(self.cards[n - 1])
        } else {
            None
        }
    }

    /// Tells you the bottom card (very last to be drawn) in the undealt deck
    /// without dealing it.
    pub fn bottom_card(&self) -> (r: Option<Card>)
        ensures
            r == (if self.undealt().len() > 0 {
                Some(self.undealt()[0])
            } else {
                None
            }),
    {
        if self.cards.len() > 0 {
            Some(self.cards[0])
        } else {
            None
        }
    }

    /// Deals the card from the undealt pile. If there are no cards left, the function
    /// will return an error.
    pub fn deal_one(&mut self) -> (r: Result<Card, &'static str>)
        ensures
            old(self).undealt().len() > 0 ==> r == Ok::<Card, &'static str>(old(self).undealt().last())
                && final(self).undealt() == old(self).undealt().drop_last() && final(self).dealt()
                == old(self).dealt().push(old(self).undealt().last()),
            old(self).undealt().len() == 0 ==> final(self).undealt() == old(self).undealt()
                && final(self).dealt() == old(self).dealt(),
            r matches Err(e) ==> old(self).undealt().len() == 0 && e@ == "No cards left"@,
            r is Err <==> old(self).undealt().len() == 0,
            final(self).all() == old(self).all(),
    {
        proof {
            use_type_invariant(&*self);
        }
        let ghost u = self.cards@;
        let ghost d = self.dealt_cards@;
        let mut cards: Vec<Card> = Vec::new();
        std::mem::swap(&mut cards, &mut self.cards);
        let mut dealt_cards: Vec<Card> = Vec::new();
        std::mem::swap(&mut dealt_cards, &mut self.dealt_cards);
        let r = if let Some(card) = cards.pop() {
            dealt_cards.push(card);
            proof {
                assert(u =~= u.drop_last().push(u.last()));
                assert(u.to_multiset() =~= u.drop_last().to_multiset().insert(u.last()));
            }
            Ok(card)
        } else {
            Err("No cards left")
        };
        *self = Deck { cards, dealt_cards };
        proof {
            assert(self.all() =~= old(self).all());
        }
        r
    }

    /// Deals one or more card from the undealt pile and returns them as an array.
    pub fn deal(&mut self, numcards: usize) -> (r: Vec<Card>)
        ensures
            r@ == dealt_run(old(self).undealt(), numcards as nat),
            final(self).undealt() == after_dealing(old(self).undealt(), numcards as nat),
            final(self).dealt() == old(self).dealt() + r@,
            final(self).all() == old(self).all(),
    {
        let ghost start = self.undealt();
        let ghost start_dealt = self.dealt();
        let mut result: Vec<Card> = Vec::new();
        let mut i: usize = 0;
        while i < numcards
            invariant_except_break
                i <= numcards,
            invariant
                i <= start.len(),
                result@ == dealt_run(start, i as nat),
                self.undealt() == after_dealing(start, i as nat),
                self.dealt() == start_dealt + result@,
                self.all() == old(self).all(),
                start == old(self).undealt(),
                start_dealt == old(self).dealt(),
            ensures
                result@ == dealt_run(start, numcards as nat),
                self.undealt() == after_dealing(start, numcards as nat),
                self.dealt() == start_dealt + result@,
                self.all() == old(self).all(),
            decreases numcards - i,
        {
            if let Ok(card) = self.deal_one() {
                proof {
                    assert(dealt_run(start, (i + 1) as nat) =~= dealt_run(start, i as nat).push(card));
                    assert(after_dealing(start, (i + 1) as nat) =~= after_dealing(start, i as nat).drop_last());
                }
                result.push(card);
                assert(self.dealt() =~= start_dealt + result@);
            } else {
                // No cards so no point continuing
                assert(dealt_run(start, numcards as nat) =~= dealt_run(start, i as nat));
                assert(after_dealing(start, numcards as nat) =~= after_dealing(start, i as nat));
                break;
            }
            i = i + 1;
        }
        result
    }

    /// Deals cards and writes their short names one after another.
    pub fn deal_str(&mut self, numcards: usize) -> (s: String)
        ensures
            s@ == concat_cards(dealt_run(old(self).undealt(), numcards as nat)),
            final(self).undealt() == after_dealing(old(self).undealt(), numcards as nat),
            final(self).dealt() == old(self).dealt() + dealt_run(old(self).undealt(), numcards as nat),
            final(self).all() == old(self).all(),
    {
        let dealt = self.deal(numcards);
        let mut s = String::new();
        let mut i: usize = 0;
        while i < dealt.len()
            invariant
                i <= dealt.len(),
                s@ == concat_cards(dealt@.take(i as int)),
            decreases dealt.len() - i,
        {
            let c = dealt[i];
            proof {
                assert(dealt@.take(i + 1).drop_last() =~= dealt@.take(i as int));
            }
            push_char(&mut s, c.rank.to_char());
            push_char(&mut s, c.suit.to_char());
            assert(s@ =~= concat_cards(dealt@.take(i + 1)));
            i = i + 1;
        }
        assert(dealt@.take(dealt.len() as int) =~= dealt@);
        s
    }

    /// Deals one or more card straight to the `Hand`. Returns the number of cards dealt.
    pub fn deal_to_hand(&mut self, hand: &mut Hand, numcards: usize) -> (n: usize)
        ensures
            n == dealt_run(old(self).undealt(), numcards as nat).len(),
            final(hand).cards@ == old(hand).cards@ + dealt_run(old(self).undealt(), numcards as nat),
            final(self).undealt() == after_dealing(old(self).undealt(), numcards as nat),
            final(self).dealt() == old(self).dealt() + dealt_run(old(self).undealt(), numcards as nat),
            final(self).all() == old(self).all(),
    {
        let ghost start = self.undealt();
        let ghost start_dealt = self.dealt();
        let ghost start_hand = hand.cards@;
        let mut dealt: usize = 0;
        let mut i: usize = 0;
        while i < numcards
            invariant_except_break
                i <= numcards,
            invariant
                i <= start.len(),
                dealt == i,
                hand.cards@ == start_hand + dealt_run(start, i as nat),
                self.undealt() == after_dealing(start, i as nat),
                self.dealt() == start_dealt + dealt_run(start, i as nat),
                self.all() == old(self).all(),
                start == old(self).undealt(),
                start_dealt == old(self).dealt(),
                start_hand == old(hand).cards@,
            ensures
                dealt == dealt_run(start, numcards as nat).len(),
                hand.cards@ == start_hand + dealt_run(start, numcards as nat),
                self.undealt() == after_dealing(start, numcards as nat),
                self.dealt() == start_dealt + dealt_run(start, numcards as nat),
                self.all() == old(self).all(),
            decreases numcards - i,
        {
            if let Ok(card) = self.deal_one() {
                proof {
                    assert(dealt_run(start, (i + 1) as nat) =~= dealt_run(start, i as nat).push(card));
                    assert(after_dealing(start, (i + 1) as nat) =~= after_dealing(start, i as nat).drop_last());
                }
                dealt += 1;
                hand.push_card(card);
                assert(self.dealt() =~= start_dealt + dealt_run(start, (i + 1) as nat));
                assert(hand.cards@ =~= start_hand + dealt_run(start, (i + 1) as nat));
            } else {
                // No cards so no point continuing
                assert(dealt_run(start, numcards as nat) =~= dealt_run(start, i as nat));
                assert(after_dealing(start, numcards as nat) =~= after_dealing(start, i as nat));
                break;
            }
            i = i + 1;
        }
        dealt
    }

    /// Return the dealt cards back to the end of the undealt pile, last dealt first.
    pub fn reset(&mut self)
        ensures
            final(self).undealt() == old(self).undealt() + old(self).dealt().reverse(),
            final(self).dealt() == Seq::<Card>::empty(),
            final(self).all() == old(self).all(),
    {
        proof {
            use_type_invariant(&*self);
        }
        let ghost u = self.cards@;
        let ghost d = self.dealt_cards@;
        let mut cards: Vec<Card> = Vec::new();
        std::mem::swap(&mut cards, &mut self.cards);
        let mut dealt_cards: Vec<Card> = Vec::new();
        std::mem::swap(&mut dealt_cards, &mut self.dealt_cards);
        let mut moved: usize = 0;
        loop
            invariant
                moved <= d.len(),
                u.len() + d.len() <= usize::MAX,
                dealt_cards@ == d.take(d.len() - moved),
                cards@ == u + d.skip(d.len() - moved).reverse(),
                cards@.to_multiset().add(dealt_cards@.to_multiset()) == u.to_multiset().add(
                    d.to_multiset(),
                ),
            ensures
                dealt_cards@ == Seq::<Card>::empty(),
                cards@ == u + d.reverse(),
                cards@.to_multiset().add(dealt_cards@.to_multiset()) == u.to_multiset().add(
                    d.to_multiset(),
                ),
            decreases d.len() - moved,
        {
            let ghost before = dealt_cards@;
            let ghost before_cards = cards@;
            match dealt_cards.pop() {
                Some(c) => {
                    cards.push(c);
                    proof {
                        let k = d.len() - moved;
                        assert(c == d[k - 1]);
                        assert(d.skip(k - 1).reverse() =~= d.skip(k).reverse().push(d[k - 1]));
                        assert(d.take(k).drop_last() =~= d.take(k - 1));
                        assert(before =~= dealt_cards@.push(c));
                        assert(before.to_multiset() =~= dealt_cards@.to_multiset().insert(c));
                        assert(cards@.to_multiset().add(dealt_cards@.to_multiset()) =~= before_cards.to_multiset().add(before.to_multiset()));
                    }
                    moved = moved + 1;
                },
                None => {
                    assert(moved == d.len());
                    assert(d.skip(0) =~= d);
                    break;
                },
            }
        }
        *self = Deck { cards, dealt_cards };
    }

    /// shuffles
    pub fn shuff(&mut self)
        ensures
            final(self).undealt().to_multiset() == old(self).undealt().to_multiset(),
            final(self).undealt().len() == old(self).undealt().len(),
            final(self).dealt() == old(self).dealt(),
            final(self).all() == old(self).all(),
    {
        self.shuffle();
    }

    /// Resets and shuffles the deck
    pub fn reset_shuffle(&mut self)
        ensures
            final(self).undealt().to_multiset() == old(self).all(),
            final(self).dealt() == Seq::<Card>::empty(),
            final(self).all() == old(self).all(),
    {
        self.reset();
        self.shuffle();
    }
}

/// Dealing keeps what a reset gives back: the undealt pile followed by the
/// dealt pile in reverse is the same before and after dealing any number of
/// cards, so a reset after dealing returns the deck to where it was.
pub proof fn lemma_deal_keeps_reset_order(undealt: Seq<Card>, dealt: Seq<Card>, n: nat)
    ensures
        after_dealing(undealt, n) + (dealt + dealt_run(undealt, n)).reverse() == undealt
            + dealt.reverse(),
{
    let run = dealt_run(undealt, n);
    let rest = after_dealing(undealt, n);
    assert((dealt + run).reverse() =~= run.reverse() + dealt.reverse());
    assert(rest + run.reverse() =~= undealt);
    assert(rest + (run.reverse() + dealt.reverse()) =~= (rest + run.reverse()) + dealt.reverse());
}

/// Dealing one card keeps what a reset gives back, as dealing many does.
pub proof fn lemma_deal_one_keeps_reset_order(undealt: Seq<Card>, dealt: Seq<Card>)
    requires
        undealt.len() > 0,
    ensures
        undealt.drop_last() + dealt.push(undealt.last()).reverse() == undealt + dealt.reverse(),
{
    assert(dealt.push(undealt.last()).reverse() =~= seq![undealt.last()] + dealt.reverse());
    assert(undealt.drop_last() + seq![undealt.last()] =~= undealt);
    assert(undealt.drop_last() + (seq![undealt.last()] + dealt.reverse()) =~= (undealt.drop_last()
        + seq![undealt.last()]) + dealt.reverse());
}

/// Dealing from a deck with nothing dealt and then resetting it gives back
/// the undealt pile it had.
pub proof fn lemma_deal_then_reset(undealt: Seq<Card>, n: nat)
    ensures
        after_dealing(undealt, n) + dealt_run(undealt, n).reverse() == undealt,
{
    lemma_deal_keeps_reset_order(undealt, Seq::empty(), n);
    assert(Seq::<Card>::empty() + dealt_run(undealt, n) =~= dealt_run(undealt, n));
    assert(undealt + Seq::<Card>::empty().reverse() =~= undealt);
}

} // verus!
