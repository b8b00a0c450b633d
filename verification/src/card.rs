//! Ranks, suits and cards.
use vstd::prelude::*;
use vstd::string::StringExecFns;
use crate::text::str_eq;

verus! {

/// The suit of a card. `NONE` marks an absent suit; `Wild` matches any of the
/// four real suits wherever suits are compared.
#[derive(Clone, Copy, Debug, PartialEq, Eq, Structural, Hash, PartialOrd, Ord)]
pub enum Suit {
    NONE,
    Clubs,
    Diamonds,
    Hearts,
    Spades,
    Wild,
}

/// The rank of a card. `NONE` marks an absent rank.
#[derive(Clone, Copy, Debug, PartialEq, Eq, Structural, Hash, PartialOrd, Ord)]
pub enum Rank {
    NONE,
    Two,
    Three,
    Four,
    Five,
    Six,
    Seven,
    Eight,
    Nine,
    Ten,
    Jack,
    Queen,
    King,
    Ace,
}

impl Suit {
    /// Position of the suit in the order `NONE < Clubs < Diamonds < Hearts < Spades < Wild`.
    pub open spec fn position(self) -> nat {
        match self {
            Suit::NONE => 0,
            Suit::Clubs => 1,
            Suit::Diamonds => 2,
            Suit::Hearts => 3,
            Suit::Spades => 4,
            Suit::Wild => 5,
        }
    }

    /// One of the four suits a card can really have.
    pub open spec fn is_real(self) -> bool {
        self == Suit::Clubs || self == Suit::Diamonds || self == Suit::Hearts || self
            == Suit::Spades
    }

    /// The label of the suit.
    pub open spec fn name(self) -> Seq<char> {
        match self {
            Suit::NONE => "NONE"@,
            Suit::Clubs => "Clubs"@,
            Suit::Diamonds => "Diamonds"@,
            Suit::Hearts => "Hearts"@,
            Suit::Spades => "Spades"@,
            Suit::Wild => "Wild"@,
        }
    }

    /// The suit that a label stands for; any unknown label stands for `NONE`.
    pub open spec fn from_name(name: Seq<char>) -> Suit {
        if name == "Clubs"@ {
            Suit::Clubs
        } else if name == "Diamonds"@ {
            Suit::Diamonds
        } else if name == "Hearts"@ {
            Suit::Hearts
        } else if name == "Spades"@ {
            Suit::Spades
        } else if name == "Wild"@ {
            Suit::Wild
        } else {
            Suit::NONE
        }
    }

    /// The label of the suit.
    pub fn to_str(&self) -> (s: &'static str)
        ensures
            s@ == self.name(),
    {
        match self {
            Suit::NONE => "NONE",
            Suit::Clubs => "Clubs",
            Suit::Diamonds => "Diamonds",
            Suit::Hearts => "Hearts",
            Suit::Spades => "Spades",
            Suit::Wild => "Wild",
        }
    }

    /// Reads a suit from its label. Any other text is read as `NONE`.
    pub fn from_str(s: &str) -> (suit: Suit)
        ensures
            suit == Suit::from_name(s@),
    {
        if str_eq(s, "Clubs") {
            Suit::Clubs
        } else if str_eq(s, "Diamonds") {
            Suit::Diamonds
        } else if str_eq(s, "Hearts") {
            Suit::Hearts
        } else if str_eq(s, "Spades") {
            Suit::Spades
        } else if str_eq(s, "Wild") {
            Suit::Wild
        } else {
            Suit::NONE
        }
    }

    /// Reads a suit from a label that may be missing. A missing label is
    /// refused with `Invalid suit object`; a label that stands for no suit is
    /// read as `NONE`.
    pub fn from_entry(label: Option<&str>) -> (r: Result<Suit, &'static str>)
        ensures
            match label {
                Some(text) => r == Ok::<Suit, &'static str>(Suit::from_name(text@)),
                None => r is Err && r->Err_0@ == "Invalid suit object"@,
            },
    {
        match label {
            Some(text) => Ok(Suit::from_str(text)),
            None => Err("Invalid suit object"),
        }
    }

    /// The position of the suit in the suit order, as a machine integer.
    pub fn index(&self) -> (i: usize)
        ensures
            i == self.position(),
    {
        match self {
            Suit::NONE => 0,
            Suit::Clubs => 1,
            Suit::Diamonds => 2,
            Suit::Hearts => 3,
            Suit::Spades => 4,
            Suit::Wild => 5,
        }
    }
}

impl Rank {
    /// The number a rank is known by: 2 to 14 for `Two` to `Ace`, and 0 for `NONE`.
    pub open spec fn value(self) -> nat {
        match self {
            Rank::NONE => 0,
            Rank::Two => 2,
            Rank::Three => 3,
            Rank::Four => 4,
            Rank::Five => 5,
            Rank::Six => 6,
            Rank::Seven => 7,
            Rank::Eight => 8,
            Rank::Nine => 9,
            Rank::Ten => 10,
            Rank::Jack => 11,
            Rank::Queen => 12,
            Rank::King => 13,
            Rank::Ace => 14,
        }
    }

    /// The rank that a number stands for: 1 and 14 both stand for `Ace`, 2 to 13
    /// for `Two` to `King`, and every other number for `NONE`.
    pub open spec fn from_value(i: nat) -> Rank {
        if i == 1 {
            Rank::Ace
        } else if i == 2 {
            Rank::Two
        } else if i == 3 {
            Rank::Three
        } else if i == 4 {
            Rank::Four
        } else if i == 5 {
            Rank::Five
        } else if i == 6 {
            Rank::Six
        } else if i == 7 {
            Rank::Seven
        } else if i == 8 {
            Rank::Eight
        } else if i == 9 {
            Rank::Nine
        } else if i == 10 {
            Rank::Ten
        } else if i == 11 {
            Rank::Jack
        } else if i == 12 {
            Rank::Queen
        } else if i == 13 {
            Rank::King
        } else if i == 14 {
            Rank::Ace
        } else {
            Rank::NONE
        }
    }

    /// A rank other than `NONE`.
    pub open spec fn is_real(self) -> bool {
        self != Rank::NONE
    }

    /// The rank that follows in the cycle `Two, Three, .., King, Ace, Two`;
    /// `NONE` follows itself.
    pub open spec fn spec_next(&self) -> Rank {
        match self {
            Rank::NONE => Rank::NONE,
            Rank::Ace => Rank::Two,
            _ => Rank::from_value(self.value() + 1),
        }
    }

    /// The rank that precedes in the cycle `Two, Three, .., King, Ace, Two`;
    /// `NONE` precedes itself.
    pub open spec fn spec_prev(&self) -> Rank {
        match self {
            Rank::NONE => Rank::NONE,
            Rank::Two => Rank::Ace,
            _ => Rank::from_value((self.value() - 1) as nat),
        }
    }

    /// The short label of the rank.
    pub open spec fn name(self) -> Seq<char> {
        match self {
            Rank::NONE => "NONE"@,
            Rank::Two => "Two"@,
            Rank::Three => "Three"@,
            Rank::Four => "Four"@,
            Rank::Five => "Five"@,
            Rank::Six => "Six"@,
            Rank::Seven => "Seven"@,
            Rank::Eight => "Eight"@,
            Rank::Nine => "Nine"@,
            Rank::Ten => "Ten"@,
            Rank::Jack => "J"@,
            Rank::Queen => "Q"@,
            Rank::King => "K"@,
            Rank::Ace => "A"@,
        }
    }

    /// The rank that a short label stands for, if any.
    pub open spec fn from_name(name: Seq<char>) -> Option<Rank> {
        if name == "Two"@ {
            Some(Rank::Two)
        } else if name == "Three"@ {
            Some(Rank::Three)
        } else if name == "Four"@ {
            Some(Rank::Four)
        } else if name == "Five"@ {
            Some(Rank::Five)
        } else if name == "Six"@ {
            Some(Rank::Six)
        } else if name == "Seven"@ {
            Some(Rank::Seven)
        } else if name == "Eight"@ {
            Some(Rank::Eight)
        } else if name == "Nine"@ {
            Some(Rank::Nine)
        } else if name == "Ten"@ {
            Some(Rank::Ten)
        } else if name == "J"@ {
            Some(Rank::Jack)
        } else if name == "Q"@ {
            Some(Rank::Queen)
        } else if name == "K"@ {
            Some(Rank::King)
        } else if name == "A"@ {
            Some(Rank::Ace)
        } else {
            None
        }
    }

    /// The name under which the rank is shown: the face cards and the ace are
    /// written out in full.
    pub open spec fn display_name(self) -> Seq<char> {
        match self {
            Rank::Jack => "Jack"@,
            Rank::Queen => "Queen"@,
            Rank::King => "King"@,
            Rank::Ace => "Ace"@,
            _ => self.name(),
        }
    }

    /// Converts a number from 2 to 14 into its rank.
    pub fn from(item: usize) -> (rank: Rank)
        requires
            2 <= item <= 14,
        ensures
            rank == Rank::from_value(item as nat),
            rank.value() == item,
    {
        Rank::from_int(item)
    }

    /// Reads a rank from a number that may be missing. A missing number is
    /// refused with `Invalid rank object`; a number must be one from 2 to 14.
    pub fn from_entry(number: Option<usize>) -> (r: Result<Rank, &'static str>)
        requires
            number matches Some(n) ==> 2 <= n <= 14,
        ensures
            match number {
                Some(n) => r == Ok::<Rank, &'static str>(Rank::from_value(n as nat)),
                None => r is Err && r->Err_0@ == "Invalid rank object"@,
            },
    {
        match number {
            Some(n) => Ok(Rank::from(n)),
            None => Err("Invalid rank object"),
        }
    }

    /// Reads a rank from its short label. Any other text is refused with
    /// `Invalid rank`.
    pub fn from_str(s: &str) -> (r: Result<Rank, &'static str>)
        ensures
            match r {
                Ok(rank) => Rank::from_name(s@) == Some(rank),
                Err(e) => Rank::from_name(s@) is None && e@ == "Invalid rank"@,
            },
    {
        if str_eq(s, "Two") {
            Ok(Rank::Two)
        } else if str_eq(s, "Three") {
            Ok(Rank::Three)
        } else if str_eq(s, "Four") {
            Ok(Rank::Four)
        } else if str_eq(s, "Five") {
            Ok(Rank::Five)
        } else if str_eq(s, "Six") {
            Ok(Rank::Six)
        } else if str_eq(s, "Seven") {
            Ok(Rank::Seven)
        } else if str_eq(s, "Eight") {
            Ok(Rank::Eight)
        } else if str_eq(s, "Nine") {
            Ok(Rank::Nine)
        } else if str_eq(s, "Ten") {
            Ok(Rank::Ten)
        } else if str_eq(s, "J") {
            Ok(Rank::Jack)
        } else if str_eq(s, "Q") {
            Ok(Rank::Queen)
        } else if str_eq(s, "K") {
            Ok(Rank::King)
        } else if str_eq(s, "A") {
            Ok(Rank::Ace)
        } else {
            Err("Invalid rank")
        }
    }

    /// The rank after this one in the cycle, for following runs of ranks; it says
    /// nothing of which rank is higher.
    #[verifier::when_used_as_spec(spec_next)]
    pub fn next(&self) -> (r: Rank)
        ensures
            r == self.spec_next(),
    {
        match self {
            Rank::Two => Rank::Three,
            Rank::Three => Rank::Four,
            Rank::Four => Rank::Five,
            Rank::Five => Rank::Six,
            Rank::Six => Rank::Seven,
            Rank::Seven => Rank::Eight,
            Rank::Eight => Rank::Nine,
            Rank::Nine => Rank::Ten,
            Rank::Ten => Rank::Jack,
            Rank::Jack => Rank::Queen,
            Rank::Queen => Rank::King,
            Rank::King => Rank::Ace,
            Rank::Ace => Rank::Two,
            Rank::NONE => Rank::NONE,
        }
    }

    /// The rank before this one in the cycle, for following runs of ranks; it says
    /// nothing of which rank is higher.
    #[verifier::when_used_as_spec(spec_prev)]
    pub fn prev(&self) -> (r: Rank)
        ensures
            r == self.spec_prev(),
    {
        match self {
            Rank::Two => Rank::Ace,
            Rank::Three => Rank::Two,
            Rank::Four => Rank::Three,
            Rank::Five => Rank::Four,
            Rank::Six => Rank::Five,
            Rank::Seven => Rank::Six,
            Rank::Eight => Rank::Seven,
            Rank::Nine => Rank::Eight,
            Rank::Ten => Rank::Nine,
            Rank::Jack => Rank::Ten,
            Rank::Queen => Rank::Jack,
            Rank::King => Rank::Queen,
            Rank::Ace => Rank::King,
            Rank::NONE => Rank::NONE,
        }
    }

    /// The short label of the rank: `Two` to `Ten`, `J`, `Q`, `K`, `A`.
    pub fn to_str(&self) -> (s: &'static str)
        ensures
            s@ == self.name(),
    {
        match self {
            Rank::NONE => "NONE",
            Rank::Two => "Two",
            Rank::Three => "Three",
            Rank::Four => "Four",
            Rank::Five => "Five",
            Rank::Six => "Six",
            Rank::Seven => "Seven",
            Rank::Eight => "Eight",
            Rank::Nine => "Nine",
            Rank::Ten => "Ten",
            Rank::Jack => "J",
            Rank::Queen => "Q",
            Rank::King => "K",
            Rank::Ace => "A",
        }
    }

    /// The number of the rank: 2 to 14, and 0 for `NONE`.
    pub fn to_int(&self) -> (i: usize)
        ensures
            i == self.value(),
    {
        match self {
            Rank::Two => 2,
            Rank::Three => 3,
            Rank::Four => 4,
            Rank::Five => 5,
            Rank::Six => 6,
            Rank::Seven => 7,
            Rank::Eight => 8,
            Rank::Nine => 9,
            Rank::Ten => 10,
            Rank::Jack => 11,
            Rank::Queen => 12,
            Rank::King => 13,
            Rank::Ace => 14,
            Rank::NONE => 0,
        }
    }

    /// The rank that a number stands for; `NONE` for a number that stands for none.
    pub fn from_int(i: usize) -> (rank: Rank)
        ensures
            rank == Rank::from_value(i as nat),
    {
        match i {
            1 => Rank::Ace,
            2 => Rank::Two,
            3 => Rank::Three,
            4 => Rank::Four,
            5 => Rank::Five,
            6 => Rank::Six,
            7 => Rank::Seven,
            8 => Rank::Eight,
            9 => Rank::Nine,
            10 => Rank::Ten,
            11 => Rank::Jack,
            12 => Rank::Queen,
            13 => Rank::King,
            14 => Rank::Ace,
            _ => Rank::NONE,
        }
    }

    /// The rank as it is shown to a reader.
    pub fn to_string(&self) -> (s: String)
        ensures
            s@ == self.display_name(),
    {
        let txt = match self {
            Rank::Jack => "Jack",
            Rank::Queen => "Queen",
            Rank::King => "King",
            Rank::Ace => "Ace",
            _ => self.to_str(),
        };
        String::from_str(txt)
    }
}

/// A playing card: a rank and a suit, compared by value.
#[derive(Clone, Copy, Debug, PartialEq, Eq, Structural, Hash)]
pub struct Card {
    pub rank: Rank,
    pub suit: Suit,
}

/// A card as it comes from outside: the number of its rank and the label of
/// its suit, either of which may be missing.
#[derive(Debug, Clone)]
pub struct CardEntry {
    pub rank: Option<usize>,
    pub suit: Option<String>,
}

impl CardEntry {
    /// Both the number and the label are there.
    pub open spec fn is_complete(self) -> bool {
        self.rank is Some && self.suit is Some
    }

    /// The card that a complete entry stands for.
    pub open spec fn card(self) -> Card
        recommends
            self.is_complete(),
    {
        Card::of_parts(self.rank->Some_0 as nat, self.suit->Some_0@)
    }
}

impl Card {
    /// The text of a card: its rank's label, ` of `, and its suit's label.
    pub open spec fn label(self) -> Seq<char> {
        self.rank.name() + " of "@ + self.suit.name()
    }

    /// The card of the same suit whose rank follows in the cycle.
    pub fn next(&self) -> (c: Card)
        ensures
            c == (Card { rank: self.rank.spec_next(), suit: self.suit }),
    {
        Card { rank: self.rank.next(), suit: self.suit }
    }

    /// The card of the same suit whose rank precedes in the cycle.
    pub fn prev(&self) -> (c: Card)
        ensures
            c == (Card { rank: self.rank.spec_prev(), suit: self.suit }),
    {
        Card { rank: self.rank.prev(), suit: self.suit }
    }

    /// The card that a number and a suit label stand for: the rank of the
    /// number, `NONE` for a number that stands for no rank, and the suit of the
    /// label, `NONE` for a label that stands for no suit.
    pub open spec fn of_parts(rank: nat, suit: Seq<char>) -> Card {
        Card { rank: Rank::from_value(rank), suit: Suit::from_name(suit) }
    }

    /// Makes a card from the number of its rank and the label of its suit.
    pub fn from_parts(rank: usize, suit: &str) -> (c: Card)
        ensures
            c == Card::of_parts(rank as nat, suit@),
    {
        Card { rank: Rank::from_int(rank), suit: Suit::from_str(suit) }
    }

    /// The number of the card's rank and the label of its suit.
    pub fn to_parts(&self) -> (parts: (usize, &'static str))
        ensures
            parts.0 == self.rank.value(),
            parts.1@ == self.suit.name(),
            Card::of_parts(parts.0 as nat, parts.1@) == *self,
    {
        proof {
            lemma_rank_value_round_trip(self.rank);
            lemma_suit_label_round_trip(self.suit);
        }
        (self.rank.to_int(), self.suit.to_str())
    }

    /// The text of the card: `Four of Clubs`, `A of Wild`.
    pub fn to_str(&self) -> (s: String)
        ensures
            s@ == self.label(),
    {
        let mut s = String::from_str(self.rank.to_str());
        s.append(" of ");
        s.append(self.suit.to_str());
        s
    }
}

/// Every suit is recovered from its own label.
pub proof fn lemma_suit_label_round_trip(suit: Suit)
    ensures
        Suit::from_name(suit.name()) == suit,
{
    reveal_strlit("NONE");
    reveal_strlit("Clubs");
    reveal_strlit("Diamonds");
    reveal_strlit("Hearts");
    reveal_strlit("Spades");
    reveal_strlit("Wild");
    assert("NONE"@.len() == 4 && "Wild"@.len() == 4 && "Clubs"@.len() == 5);
    assert("Diamonds"@.len() == 8 && "Hearts"@.len() == 6 && "Spades"@.len() == 6);
    assert("NONE"@[0] == 'N' && "Wild"@[0] == 'W');
    assert("Hearts"@[0] == 'H' && "Spades"@[0] == 'S');
}

/// Every rank is recovered from its own number.
pub proof fn lemma_rank_value_round_trip(rank: Rank)
    ensures
        Rank::from_value(rank.value()) == rank,
{
}

/// Every number from 2 to 14 is recovered from the rank it stands for, and 1
/// stands for the same rank as 14.
pub proof fn lemma_value_rank_round_trip(i: nat)
    ensures
        2 <= i <= 14 ==> Rank::from_value(i).value() == i,
        Rank::from_value(1) == Rank::from_value(14),
        !(1 <= i <= 14) ==> Rank::from_value(i) == Rank::NONE,
{
}

/// Every rank other than `NONE` is recovered from its own short label, and the
/// label of `NONE` stands for no rank.
pub proof fn lemma_rank_label_round_trip(rank: Rank)
    ensures
        rank != Rank::NONE ==> Rank::from_name(rank.name()) == Some(rank),
        Rank::from_name(Rank::NONE.name()) is None,
{
    reveal_strlit("NONE");
    reveal_strlit("Two");
    reveal_strlit("Three");
    reveal_strlit("Four");
    reveal_strlit("Five");
    reveal_strlit("Six");
    reveal_strlit("Seven");
    reveal_strlit("Eight");
    reveal_strlit("Nine");
    reveal_strlit("Ten");
    reveal_strlit("J");
    reveal_strlit("Q");
    reveal_strlit("K");
    reveal_strlit("A");
    assert("NONE"@.len() == 4 && "NONE"@[1] == 'O');
    assert("Two"@.len() == 3 && "Two"@[1] == 'w');
    assert("Three"@.len() == 5 && "Three"@[0] == 'T');
    assert("Four"@.len() == 4 && "Four"@[1] == 'o');
    assert("Five"@.len() == 4 && "Five"@[1] == 'i');
    assert("Six"@.len() == 3 && "Six"@[1] == 'i');
    assert("Seven"@.len() == 5 && "Seven"@[0] == 'S');
    assert("Eight"@.len() == 5 && "Eight"@[0] == 'E');
    assert("Nine"@.len() == 4 && "Nine"@[1] == 'i' && "Nine"@[0] == 'N');
    assert("Five"@[0] == 'F');
    assert("Ten"@.len() == 3 && "Ten"@[1] == 'e');
    assert("J"@.len() == 1 && "J"@[0] == 'J');
    assert("Q"@.len() == 1 && "Q"@[0] == 'Q');
    assert("K"@.len() == 1 && "K"@[0] == 'K');
    assert("A"@.len() == 1 && "A"@[0] == 'A');
}

/// `next` and `prev` undo each other on every rank.
pub proof fn lemma_next_prev_inverse(rank: Rank)
    ensures
        rank.spec_next().spec_prev() == rank,
        rank.spec_prev().spec_next() == rank,
{
}

/// `next` raises the number of every rank from `Two` to `King` by one, takes
/// `Ace` to `Two`, and leaves `NONE` alone.
pub proof fn lemma_next_value(rank: Rank)
    ensures
        rank == Rank::NONE ==> rank.spec_next() == Rank::NONE,
        rank == Rank::Ace ==> rank.spec_next() == Rank::Two,
        rank != Rank::NONE && rank != Rank::Ace ==> rank.spec_next().value() == rank.value() + 1,
{
}

} // verus!
