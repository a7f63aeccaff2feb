use vstd::prelude::*;

use crate::components::rank::{all_ranks, ord_cmp, rank_char, rank_name, rank_of_char, Rank};
use crate::components::suit::{suit_char, suit_name, suit_of_char, Suit};
use crate::text::{lemma_char_width, lemma_utf8_len_short, push_char, utf8_len};

verus! {

/// A playing card.
#[derive(Copy, Clone, Debug, PartialEq, Eq, Hash, Structural)]
pub struct Card {
    pub rank: Rank,
    pub suit: Suit,
}

/// The two-character short name of a card, rank first: "3C", "TH", "AS".
pub open spec fn card_str(c: Card) -> Seq<char> {
    seq![rank_char(c.rank), suit_char(c.suit)]
}

/// The card that a two-character text names, if any.
pub open spec fn card_of_chars(s: Seq<char>) -> Option<Card> {
    if s.len() == 2 && rank_of_char(s[0]) is Some && suit_of_char(s[1]) is Some {
        Some(Card { rank: rank_of_char(s[0])->0, suit: suit_of_char(s[1])->0 })
    } else {
        None
    }
}

/// The part of a card's picture path that names its suit.
pub open spec fn suit_path(s: Suit) -> Seq<char> {
    match s {
        Suit::Hearts => "/heart"@,
        Suit::Diamonds => "/diamond"@,
        Suit::Clubs => "/club"@,
        Suit::Spades => "/spade"@,
    }
}

/// The part of a card's picture path that names its rank (the Ace is 1).
pub open spec fn rank_path(r: Rank) -> Seq<char> {
    match r {
        Rank::Two => "/2"@,
        Rank::Three => "/3"@,
        Rank::Four => "/4"@,
        Rank::Five => "/5"@,
        Rank::Six => "/6"@,
        Rank::Seven => "/7"@,
        Rank::Eight => "/8"@,
        Rank::Nine => "/9"@,
        Rank::Ten => "/10"@,
        Rank::Jack => "/11"@,
        Rank::Queen => "/12"@,
        Rank::King => "/13"@,
        Rank::Ace => "/1"@,
    }
}

/// The path of the picture of a card.
pub open spec fn card_path(c: Card) -> Seq<char> {
    "cards/standard/solitaire/individuals"@ + suit_path(c.suit) + rank_path(c.rank) + ".png"@
}

/// The suits in the order in which a standard deck lists them.
pub open spec fn deck_suit_order() -> Seq<Suit> {
    seq![Suit::Spades, Suit::Hearts, Suit::Diamonds, Suit::Clubs]
}

/// The 52 cards of a standard deck: Spades, Hearts, Diamonds, Clubs, each from Two to Ace.
pub open spec fn standard_deck() -> Seq<Card> {
    Seq::new(52, |i: int| Card { rank: all_ranks()[i % 13], suit: deck_suit_order()[i / 13] })
}

impl Card {
    /// A number that identifies the card and orders the cards by strength:
    /// by rank first, then by suit.
    pub open spec fn spec_ordinal(&self) -> usize {
        (self.rank.spec_ordinal() * 13 + self.suit.spec_ordinal()) as usize
    }

    pub fn new(rank: Rank, suit: Suit) -> (c: Card)
        ensures
            c == (Card { rank, suit }),
    {
        Card { rank, suit }
    }

    /// Compares the ranks of two cards.
    pub fn cmp_rank(&self, other: &Card) -> (r: std::cmp::Ordering)
        ensures
            r == ord_cmp(self.rank.spec_ordinal(), other.rank.spec_ordinal()),
    {
        return self.rank.cmp(&other.rank);
    }

    /// The Three of Clubs.
    #[allow(non_snake_case)]
    pub fn make_3C() -> (c: Card)
        ensures
            c == (Card { rank: Rank::Three, suit: Suit::Clubs }),
    {
        Card { suit: Suit::Clubs, rank: Rank::Three }
    }

    /// The Three of Clubs.
    pub open spec fn make_3C_spec() -> Card {
        Card { rank: Rank::Three, suit: Suit::Clubs }
    }

    /// Compares two cards by rank, and by suit where the ranks are equal.
    pub fn cmp_rank_suit(&self, other: &Card) -> (r: std::cmp::Ordering)
        ensures
            r == (if self.rank.spec_ordinal() != other.rank.spec_ordinal() {
                ord_cmp(self.rank.spec_ordinal(), other.rank.spec_ordinal())
            } else {
                ord_cmp(self.suit.spec_ordinal(), other.suit.spec_ordinal())
            }),
            r == ord_cmp(self.spec_ordinal(), other.spec_ordinal()),
    {
        let cmp_rank_result = self.rank.cmp(&other.rank);
        let cmp_suit_result = self.suit.cmp(&other.suit);

        match cmp_rank_result {
            std::cmp::Ordering::Equal => cmp_suit_result,
            _ => cmp_rank_result,
        }
    }

    /// Reads a card from its two-character short name, rank first ("3C", "TH").
    /// A text whose UTF-8 encoding is not two bytes long is refused with
    /// "Card string must be length equal to 2", any other unknown text with
    /// "Error parsing card: Invalid string".
    pub fn from_str(s: &str) -> (r: Result<Card, &'static str>)
        requires
            // a single two-byte character passes the length test and then has no second character
            !(s@.len() == 1 && utf8_len(s@) == 2),
        ensures
            r is Ok <==> card_of_chars(s@) is Some,
            r matches Ok(c) ==> card_of_chars(s@) == Some(c),
            r matches Err(e) ==> e@ == (if utf8_len(s@) != 2 {
                "Card string must be length equal to 2"@
            } else {
                "Error parsing card: Invalid string"@
            }),
    {
        proof {
            lemma_utf8_len_short(s@);
            if s@.len() == 2 {
                lemma_char_width(s@[0]);
                lemma_char_width(s@[1]);
            }
        }
        // the byte length is two exactly when the text is two ASCII characters
        if s.unicode_len() != 2 {
            return Err("Card string must be length equal to 2");
        }
        let char_rank = s.get_char(0);
        let char_suit = s.get_char(1);
        if char_rank as u32 > 0x7F || char_suit as u32 > 0x7F {
            return Err("Card string must be length equal to 2");
        }

        if let Ok(rank) = Rank::from_char(char_rank) {
            if let Ok(suit) = Suit::from_char(char_suit) {
                return Ok(Card::new(rank, suit));
            }
        }
        Err("Error parsing card: Invalid string")
    }

    /// The two-character short name of the card.
    pub fn to_str(&self) -> (s: String)
        ensures
            s@ == card_str(*self),
    {
        let mut s = String::new();
        push_char(&mut s, self.rank.to_char());
        push_char(&mut s, self.suit.to_char());
        s
    }

    /// The path of the card's picture.
    pub fn to_path(&self) -> (path: String)
        ensures
            path@ == card_path(*self),
    {
        let rank = self.rank;
        let suit = self.suit;

        let mut path = String::from_str("cards/standard/solitaire/individuals");

        match suit {
            Suit::Hearts => path.append("/heart"),
            Suit::Diamonds => path.append("/diamond"),
            Suit::Clubs => path.append("/club"),
            Suit::Spades => path.append("/spade"),
        }

        match rank {
            Rank::Two => path.append("/2"),
            Rank::Three => path.append("/3"),
            Rank::Four => path.append("/4"),
            Rank::Five => path.append("/5"),
            Rank::Six => path.append("/6"),
            Rank::Seven => path.append("/7"),
            Rank::Eight => path.append("/8"),
            Rank::Nine => path.append("/9"),
            Rank::Ten => path.append("/10"),
            Rank::Jack => path.append("/11"),
            Rank::Queen => path.append("/12"),
            Rank::King => path.append("/13"),
            Rank::Ace => path.append("/1"),
        }

        path.append(".png");

        return path;
    }

    /// The long name of the card, such as "Three of Clubs".
    pub fn name(&self) -> (s: String)
        ensures
            s@ == rank_name(self.rank) + " of "@ + suit_name(self.suit),
    {
        let mut s = String::from_str(self.rank.to_str());
        s.append(" of ");
        s.append(self.suit.to_str());
        s
    }

    /// Returns an ordinal for the card which is a unique number which can be used for indexing
    #[verifier::when_used_as_spec(spec_ordinal)]
    pub fn ordinal(&self) -> (r: usize)
        ensures
            r == self.spec_ordinal(),
    {
        self.rank.ordinal() * 13 + self.suit.ordinal()
    }

    /// Tests if the card is Hearts
    pub fn is_hearts(&self) -> (b: bool)
        ensures
            b == (self.suit == Suit::Hearts),
    {
        self.suit == Suit::Hearts
    }

    /// Tests if the card is Clubs
    pub fn is_clubs(&self) -> (b: bool)
        ensures
            b == (self.suit == Suit::Clubs),
    {
        self.suit == Suit::Clubs
    }

    /// Tests if the card is Spades
    pub fn is_spades(&self) -> (b: bool)
        ensures
            b == (self.suit == Suit::Spades),
    {
        self.suit == Suit::Spades
    }

    /// Tests if the card is Diamonds
    pub fn is_diamonds(&self) -> (b: bool)
        ensures
            b == (self.suit == Suit::Diamonds),
    {
        self.suit == Suit::Diamonds
    }

    /// All the cards of a standard 52-card deck
    pub fn all_cards() -> (r: Vec<Card>)
        ensures
            r@ == standard_deck(),
    {
        let suits = vec![Suit::Spades, Suit::Hearts, Suit::Diamonds, Suit::Clubs];
        let ranks = Rank::ranks();
        let mut cards: Vec<Card> = Vec::new();
        let mut s: usize = 0;
        while s < 4
            invariant
                s <= 4,
                suits@ == deck_suit_order(),
                ranks@ == all_ranks(),
                cards@ == standard_deck().take(13 * s),
            decreases 4 - s,
        {
            let mut r: usize = 0;
            while r < 13
                invariant
                    s < 4,
                    r <= 13,
                    suits@ == deck_suit_order(),
                    ranks@ == all_ranks(),
                    cards@ == standard_deck().take(13 * s + r),
                decreases 13 - r,
            {
                let c = Card { rank: ranks[r], suit: suits[s] };
                proof {
                    let i = 13 * s + r;
                    assert(i % 13 == r && i / 13 == s) by (nonlinear_arith)
                        requires
                            i == 13 * s + r,
                            r < 13,
                    ;
                    assert(standard_deck().take(i + 1) =~= standard_deck().take(i as int).push(c));
                }
                cards.push(c);
                r = r + 1;
            }
            s = s + 1;
        }
        assert(standard_deck().take(52) =~= standard_deck());
        cards
    }

    /// All the cards of a standard 52-card deck
    pub fn iterator() -> (r: Vec<Card>)
        ensures
            r@ == standard_deck(),
    {
        Card::all_cards()
    }
}

impl Default for Card {
    fn default() -> (c: Self)
        ensures
            c == (Card { rank: Rank::Ace, suit: Suit::Hearts }),
    {
        Card { rank: Rank::Ace, suit: Suit::Hearts }
    }
}

/// Two cards with the same ordinal are the same card, and every ordinal is below 13 * 13 + 4.
pub proof fn lemma_ordinal_unique(a: Card, b: Card)
    ensures
        a.spec_ordinal() < 13 * 13 + 4,
        a.spec_ordinal() == b.spec_ordinal() <==> a == b,
{
}

/// Reading back the short name of a card gives the card.
pub proof fn lemma_card_str_round_trip(c: Card)
    ensures
        card_of_chars(card_str(c)) == Some(c),
        !card_str(c).contains(','),
        utf8_len(card_str(c)) == 2,
{
    lemma_utf8_len_short(card_str(c));
    lemma_char_width(card_str(c)[0]);
    lemma_char_width(card_str(c)[1]);
    assert(!card_str(c).contains(',')) by {
        if card_str(c).contains(',') {
            let i = choose|i: int| 0 <= i < 2 && card_str(c)[i] == ',';
            assert(i == 0 || i == 1);
        }
    }
}


/// The place of a rank in the order of declaration, Two first.
spec fn rank_index(r: Rank) -> int {
    match r {
        Rank::Two => 0,
        Rank::Three => 1,
        Rank::Four => 2,
        Rank::Five => 3,
        Rank::Six => 4,
        Rank::Seven => 5,
        Rank::Eight => 6,
        Rank::Nine => 7,
        Rank::Ten => 8,
        Rank::Jack => 9,
        Rank::Queen => 10,
        Rank::King => 11,
        Rank::Ace => 12,
    }
}

/// The place of a suit in the order of a standard deck, Spades first.
spec fn suit_index(s: Suit) -> int {
    match s {
        Suit::Spades => 0,
        Suit::Hearts => 1,
        Suit::Diamonds => 2,
        Suit::Clubs => 3,
    }
}

/// The standard deck holds every card, each once.
pub proof fn lemma_standard_deck_complete()
    ensures
        standard_deck().len() == 52,
        standard_deck().no_duplicates(),
        forall|c: Card| #[trigger] standard_deck().contains(c),
{
    let d = standard_deck();
    assert forall|i: int| 0 <= i < 52 implies rank_index(#[trigger] d[i].rank) == i % 13 && suit_index(
        d[i].suit,
    ) == i / 13 by {
        assert(0 <= i % 13 < 13 && 0 <= i / 13 < 4) by (nonlinear_arith)
            requires
                0 <= i < 52,
        ;
    }
    assert forall|i: int, j: int| 0 <= i < 52 && 0 <= j < 52 && i != j implies d[i] != d[j] by {
        assert(rank_index(d[i].rank) == i % 13 && suit_index(d[i].suit) == i / 13);
        assert(rank_index(d[j].rank) == j % 13 && suit_index(d[j].suit) == j / 13);
        assert(i == 13 * (i / 13) + i % 13 && j == 13 * (j / 13) + j % 13) by (nonlinear_arith);
    }
    assert forall|c: Card| #[trigger] d.contains(c) by {
        let i = 13 * suit_index(c.suit) + rank_index(c.rank);
        assert(i % 13 == rank_index(c.rank) && i / 13 == suit_index(c.suit)) by (nonlinear_arith)
            requires
                i == 13 * suit_index(c.suit) + rank_index(c.rank),
                0 <= rank_index(c.rank) < 13,
        ;
        assert(d[i] == c);
    }
}

} // verus!
