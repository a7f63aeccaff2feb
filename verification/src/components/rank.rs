use vstd::prelude::*;

verus! {

/// The rank of a playing card. In Tiến Lên the order of strength is
/// Three (weakest) up to Ace, and Two is the strongest rank.
#[derive(Copy, Clone, Debug, PartialEq, Eq, Hash, Structural)]
pub enum Rank {
    Two,
    Three,
    Four,
    Five,
    Six,
    Seven,
    Eight,
    Nine,
    Ten,
    Jack,
    Queen,
    King,
    Ace,
}

/// Three-way comparison of two natural numbers.
pub open spec fn ord_cmp(a: usize, b: usize) -> std::cmp::Ordering {
    if a < b {
        std::cmp::Ordering::Less
    } else if a > b {
        std::cmp::Ordering::Greater
    } else {
        std::cmp::Ordering::Equal
    }
}

/// The character that names a rank.
pub open spec fn rank_char(r: Rank) -> char {
    match r {
        Rank::Two => '2',
        Rank::Three => '3',
        Rank::Four => '4',
        Rank::Five => '5',
        Rank::Six => '6',
        Rank::Seven => '7',
        Rank::Eight => '8',
        Rank::Nine => '9',
        Rank::Ten => 'T',
        Rank::Jack => 'J',
        Rank::Queen => 'Q',
        Rank::King => 'K',
        Rank::Ace => 'A',
    }
}

/// The rank that a character names, if any; both 'A' and '1' name the Ace.
pub open spec fn rank_of_char(c: char) -> Option<Rank> {
    if c == '2' {
        Some(Rank::Two)
    } else if c == '3' {
        Some(Rank::Three)
    } else if c == '4' {
        Some(Rank::Four)
    } else if c == '5' {
        Some(Rank::Five)
    } else if c == '6' {
        Some(Rank::Six)
    } else if c == '7' {
        Some(Rank::Seven)
    } else if c == '8' {
        Some(Rank::Eight)
    } else if c == '9' {
        Some(Rank::Nine)
    } else if c == 'T' {
        Some(Rank::Ten)
    } else if c == 'J' {
        Some(Rank::Jack)
    } else if c == 'Q' {
        Some(Rank::Queen)
    } else if c == 'K' {
        Some(Rank::King)
    } else if c == 'A' || c == '1' {
        Some(Rank::Ace)
    } else {
        None
    }
}

/// The English name of a rank.
pub open spec fn rank_name(r: Rank) -> Seq<char> {
    match r {
        Rank::Two => "Two"@,
        Rank::Three => "Three"@,
        Rank::Four => "Four"@,
        Rank::Five => "Five"@,
        Rank::Six => "Six"@,
        Rank::Seven => "Seven"@,
        Rank::Eight => "Eight"@,
        Rank::Nine => "Nine"@,
        Rank::Ten => "Ten"@,
        Rank::Jack => "Jack"@,
        Rank::Queen => "Queen"@,
        Rank::King => "King"@,
        Rank::Ace => "Ace"@,
    }
}

/// All thirteen ranks in their order of declaration, Two first.
pub open spec fn all_ranks() -> Seq<Rank> {
    seq![
        Rank::Two,
        Rank::Three,
        Rank::Four,
        Rank::Five,
        Rank::Six,
        Rank::Seven,
        Rank::Eight,
        Rank::Nine,
        Rank::Ten,
        Rank::Jack,
        Rank::Queen,
        Rank::King,
        Rank::Ace,
    ]
}

impl Rank {
    /// The strength of the rank: Three is 1, Ace is 12 and Two is 13.
    pub open spec fn spec_ordinal(&self) -> usize {
        match *self {
            Rank::Three => 1,
            Rank::Four => 2,
            Rank::Five => 3,
            Rank::Six => 4,
            Rank::Seven => 5,
            Rank::Eight => 6,
            Rank::Nine => 7,
            Rank::Ten => 8,
            Rank::Jack => 9,
            Rank::Queen => 10,
            Rank::King => 11,
            Rank::Ace => 12,
            Rank::Two => 13,
        }
    }

    /// The ranks in their order of declaration.
    pub fn iterator() -> (r: Vec<Rank>)
        ensures
            r@ == all_ranks(),
    {
        Rank::ranks()
    }

    #[verifier::when_used_as_spec(spec_ordinal)]
    pub fn ordinal(&self) -> (r: usize)
        ensures
            r == self.spec_ordinal(),
    {
        match *self {
            Rank::Three => 1,
            Rank::Four => 2,
            Rank::Five => 3,
            Rank::Six => 4,
            Rank::Seven => 5,
            Rank::Eight => 6,
            Rank::Nine => 7,
            Rank::Ten => 8,
            Rank::Jack => 9,
            Rank::Queen => 10,
            Rank::King => 11,
            Rank::Ace => 12,
            Rank::Two => 13,
        }
    }

    /// Compares two ranks by their strength.
    pub fn cmp(&self, other: &Rank) -> (r: std::cmp::Ordering)
        ensures
            r == ord_cmp(self.spec_ordinal(), other.spec_ordinal()),
    {
        let self_ord = self.ordinal();
        let other_ord = other.ordinal();
        if self_ord < other_ord {
            return std::cmp::Ordering::Less;
        }
        if self_ord > other_ord {
            return std::cmp::Ordering::Greater;
        }
        std::cmp::Ordering::Equal
    }

    pub fn to_char(&self) -> (c: char)
        ensures
            c == rank_char(*self),
    {
        match *self {
            Rank::Two => '2',
            Rank::Three => '3',
            Rank::Four => '4',
            Rank::Five => '5',
            Rank::Six => '6',
            Rank::Seven => '7',
            Rank::Eight => '8',
            Rank::Nine => '9',
            Rank::Ten => 'T',
            Rank::Jack => 'J',
            Rank::Queen => 'Q',
            Rank::King => 'K',
            Rank::Ace => 'A',
        }
    }

    /// Reads a rank from its character; fails with "Invalid rank" on any other character.
    pub fn from_char(ch: char) -> (r: Result<Rank, &'static str>)
        ensures
            r matches Ok(rank) ==> rank_of_char(ch) == Some(rank),
            r matches Err(e) ==> rank_of_char(ch) is None && e@ == "Invalid rank"@,
            r is Ok <==> rank_of_char(ch) is Some,
    {
        let rank = match ch {
            '2' => Rank::Two,
            '3' => Rank::Three,
            '4' => Rank::Four,
            '5' => Rank::Five,
            '6' => Rank::Six,
            '7' => Rank::Seven,
            '8' => Rank::Eight,
            '9' => Rank::Nine,
            'T' => Rank::Ten,
            'J' => Rank::Jack,
            'Q' => Rank::Queen,
            'K' => Rank::King,
            'A' | '1' => Rank::Ace,
            _ => return Err("Invalid rank"),
        };
        Ok(rank)
    }

    pub fn to_str(&self) -> (s: &'static str)
        ensures
            s@ == rank_name(*self),
    {
        match *self {
            Rank::Two => "Two",
            Rank::Three => "Three",
            Rank::Four => "Four",
            Rank::Five => "Five",
            Rank::Six => "Six",
            Rank::Seven => "Seven",
            Rank::Eight => "Eight",
            Rank::Nine => "Nine",
            Rank::Ten => "Ten",
            Rank::Jack => "Jack",
            Rank::Queen => "Queen",
            Rank::King => "King",
            Rank::Ace => "Ace",
        }
    }

    /// All thirteen ranks, Two first.
    pub fn ranks() -> (r: Vec<Rank>)
        ensures
            r@ == all_ranks(),
    {
        vec![
            Rank::Two,
            Rank::Three,
            Rank::Four,
            Rank::Five,
            Rank::Six,
            Rank::Seven,
            Rank::Eight,
            Rank::Nine,
            Rank::Ten,
            Rank::Jack,
            Rank::Queen,
            Rank::King,
            Rank::Ace,
        ]
    }
}

impl Default for Rank {
    fn default() -> (r: Self)
        ensures
            r == Rank::Ace,
    {
        Rank::Ace
    }
}

/// Reading back the character of a rank gives the rank.
pub proof fn lemma_rank_char_round_trip(r: Rank)
    ensures
        rank_of_char(rank_char(r)) == Some(r),
{
}

/// The strength of a rank tells the rank: no two ranks are equally strong.
pub proof fn lemma_rank_ordinal_unique(a: Rank, b: Rank)
    ensures
        a.spec_ordinal() == b.spec_ordinal() <==> a == b,
{
}

/// The ranks from the weakest to the strongest: Three, Four, and so on up to
/// King and Ace, and then Two.
pub open spec fn strength_order() -> Seq<Rank> {
    seq![
        Rank::Three,
        Rank::Four,
        Rank::Five,
        Rank::Six,
        Rank::Seven,
        Rank::Eight,
        Rank::Nine,
        Rank::Ten,
        Rank::Jack,
        Rank::Queen,
        Rank::King,
        Rank::Ace,
        Rank::Two,
    ]
}

/// The strength of a rank is its place in the order from Three up to Ace and
/// then Two, counted from 1: a rank later in that order is stronger.
pub proof fn lemma_rank_strength_order()
    ensures
        forall|i: int| 0 <= i < 13 ==> (#[trigger] strength_order()[i]).spec_ordinal() == i + 1,
        forall|i: int, j: int|
            0 <= i < j < 13 ==> (#[trigger] strength_order()[i]).spec_ordinal()
                < (#[trigger] strength_order()[j]).spec_ordinal(),
        forall|r: Rank| #[trigger] strength_order().contains(r),
{
    assert forall|r: Rank| #[trigger] strength_order().contains(r) by {
        let i: int = (r.spec_ordinal() - 1) as int;
        assert(strength_order()[i] == r);
    }
}

} // verus!
