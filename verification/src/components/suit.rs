use vstd::prelude::*;

use crate::components::rank::ord_cmp;

verus! {

/// The suit of a playing card. Within one rank, Spades is the weakest suit
/// and Hearts the strongest.
#[derive(Copy, Clone, Debug, PartialEq, Eq, Hash, Structural)]
pub enum Suit {
    Hearts,
    Diamonds,
    Clubs,
    Spades,
}

/// The character that names a suit.
pub open spec fn suit_char(s: Suit) -> char {
    match s {
        Suit::Spades => 'S',
        Suit::Hearts => 'H',
        Suit::Diamonds => 'D',
        Suit::Clubs => 'C',
    }
}

/// The suit that a character names, if any.
pub open spec fn suit_of_char(c: char) -> Option<Suit> {
    if c == 'S' {
        Some(Suit::Spades)
    } else if c == 'C' {
        Some(Suit::Clubs)
    } else if c == 'D' {
        Some(Suit::Diamonds)
    } else if c == 'H' {
        Some(Suit::Hearts)
    } else {
        None
    }
}

/// The English name of a suit.
pub open spec fn suit_name(s: Suit) -> Seq<char> {
    match s {
        Suit::Spades => "Spades"@,
        Suit::Hearts => "Hearts"@,
        Suit::Diamonds => "Diamonds"@,
        Suit::Clubs => "Clubs"@,
    }
}

/// The directory name under which the pictures of a suit are kept.
pub open spec fn suit_asset(s: Suit) -> Seq<char> {
    match s {
        Suit::Spades => "spade"@,
        Suit::Hearts => "heart"@,
        Suit::Diamonds => "diamond"@,
        Suit::Clubs => "club"@,
    }
}

/// The four suits in their order of declaration.
pub open spec fn all_suits() -> Seq<Suit> {
    seq![Suit::Hearts, Suit::Diamonds, Suit::Clubs, Suit::Spades]
}

impl Suit {
    /// The strength of the suit: Spades 0, Clubs 1, Diamonds 2, Hearts 3.
    pub open spec fn spec_ordinal(&self) -> usize {
        match *self {
            Suit::Hearts => 3,
            Suit::Diamonds => 2,
            Suit::Clubs => 1,
            Suit::Spades => 0,
        }
    }

    pub fn iterator() -> (r: Vec<Suit>)
        ensures
            r@ == all_suits(),
    {
        Suit::gen_suit()
    }

    #[verifier::when_used_as_spec(spec_ordinal)]
    pub fn ordinal(&self) -> (r: usize)
        ensures
            r == self.spec_ordinal(),
    {
        match *self {
            Suit::Hearts => 3,
            Suit::Diamonds => 2,
            Suit::Clubs => 1,
            Suit::Spades => 0,
        }
    }

    /// Compares two suits by their strength.
    pub fn cmp(&self, other: &Suit) -> (r: std::cmp::Ordering)
        ensures
            r == ord_cmp(self.spec_ordinal(), other.spec_ordinal()),
    {
        let self_ord = self.ordinal();
        let other_ord = other.ordinal();
        if self_ord < other_ord {
            return std::cmp::Ordering::Less;
        }
        if self_ord > other_ord {
            return std::cmp::Ordering::Greater;
        }
        std::cmp::Ordering::Equal
    }

    /// Reads a suit from its character; fails with "Invalid suit" on any other character.
    pub fn from_char(ch: char) -> (r: Result<Suit, &'static str>)
        ensures
            r matches Ok(s) ==> suit_of_char(ch) == Some(s),
            r matches Err(e) ==> suit_of_char(ch) is None && e@ == "Invalid suit"@,
            r is Ok <==> suit_of_char(ch) is Some,
    {
        match ch {
            'S' => Ok(Suit::Spades),
            'C' => Ok(Suit::Clubs),
            'D' => Ok(Suit::Diamonds),
            'H' => Ok(Suit::Hearts),
            _ => Err("Invalid suit"),
        }
    }

    /// Reads a suit from a text of one character: "S", "C", "D" or "H"; any
    /// other text fails with "Invalid suit".
    pub fn from_str(s: &str) -> (r: Result<Suit, &'static str>)
        ensures
            r is Ok <==> s@.len() == 1 && suit_of_char(s@[0]) is Some,
            r matches Ok(suit) ==> suit_of_char(s@[0]) == Some(suit),
            r matches Err(e) ==> e@ == "Invalid suit"@,
    {
        if s.unicode_len() != 1 {
            return Err("Invalid suit");
        }
        Suit::from_char(s.get_char(0))
    }

    pub fn to_char(&self) -> (c: char)
        ensures
            c == suit_char(*self),
    {
        match self {
            Suit::Spades => 'S',
            Suit::Hearts => 'H',
            Suit::Diamonds => 'D',
            Suit::Clubs => 'C',
        }
    }

    pub fn get_asset_path(&self) -> (s: String)
        ensures
            s@ == suit_asset(*self),
    {
        match *self {
            Suit::Spades => String::from_str("spade"),
            Suit::Hearts => String::from_str("heart"),
            Suit::Diamonds => String::from_str("diamond"),
            Suit::Clubs => String::from_str("club"),
        }
    }

    pub fn to_str(&self) -> (s: &'static str)
        ensures
            s@ == suit_name(*self),
    {
        match *self {
            Suit::Spades => "Spades",
            Suit::Hearts => "Hearts",
            Suit::Diamonds => "Diamonds",
            Suit::Clubs => "Clubs",
        }
    }

    /// The four suits: Hearts, Diamonds, Clubs, Spades.
    pub fn gen_suit() -> (r: Vec<Suit>)
        ensures
            r@ == all_suits(),
    {
        vec![Suit::Hearts, Suit::Diamonds, Suit::Clubs, Suit::Spades]
    }
}

impl Default for Suit {
    fn default() -> (r: Self)
        ensures
            r == Suit::Hearts,
    {
        Suit::Hearts
    }
}

/// Reading back the character of a suit gives the suit.
pub proof fn lemma_suit_char_round_trip(s: Suit)
    ensures
        suit_of_char(suit_char(s)) == Some(s),
{
}

/// The place of a suit tells the suit: no two suits share it.
pub proof fn lemma_suit_ordinal_unique(a: Suit, b: Suit)
    ensures
        a.spec_ordinal() == b.spec_ordinal() <==> a == b,
{
}

/// The suits from the lowest to the highest: Spades, Clubs, Diamonds, Hearts.
pub open spec fn suit_order() -> Seq<Suit> {
    seq![Suit::Spades, Suit::Clubs, Suit::Diamonds, Suit::Hearts]
}

/// The place of a suit is its place in the order Spades, Clubs, Diamonds,
/// Hearts, counted from 0: a suit later in that order is higher.
pub proof fn lemma_suit_order()
    ensures
        forall|i: int| 0 <= i < 4 ==> (#[trigger] suit_order()[i]).spec_ordinal() == i,
        forall|s: Suit| #[trigger] suit_order().contains(s),
{
    assert forall|s: Suit| #[trigger] suit_order().contains(s) by {
        let i: int = s.spec_ordinal() as int;
        assert(suit_order()[i] == s);
    }
}

} // verus!
