//! Sets of hand categories.
use vstd::prelude::*;
use crate::hand::PokerHand;

verus! {

/// A set of hand categories.
#[derive(Clone, Copy, Debug, PartialEq, Eq, Structural)]
pub struct PokerHandSet {
    pub pair: bool,
    pub two_pair: bool,
    pub three_of_a_kind: bool,
    pub straight: bool,
    pub flush: bool,
    pub full_house: bool,
    pub four_of_a_kind: bool,
    pub straight_flush: bool,
    pub royal_flush: bool,
    pub flush_house: bool,
    pub five_of_a_kind: bool,
    pub flush_five: bool,
}

impl View for PokerHandSet {
    type V = Set<PokerHand>;

    /// The members, as a set.
    open spec fn view(&self) -> Set<PokerHand> {
        Set::new(|x: PokerHand| self.has(x))
    }
}

impl PokerHandSet {
    /// Whether `x` is a member.
    pub open spec fn has(self, x: PokerHand) -> bool {
        match x {
            PokerHand::Pair => self.pair,
            PokerHand::TwoPair => self.two_pair,
            PokerHand::ThreeOfAKind => self.three_of_a_kind,
            PokerHand::Straight => self.straight,
            PokerHand::Flush => self.flush,
            PokerHand::FullHouse => self.full_house,
            PokerHand::FourOfAKind => self.four_of_a_kind,
            PokerHand::StraightFlush => self.straight_flush,
            PokerHand::RoyalFlush => self.royal_flush,
            PokerHand::FlushHouse => self.flush_house,
            PokerHand::FiveOfAKind => self.five_of_a_kind,
            PokerHand::FlushFive => self.flush_five,
        }
    }

    /// The set without members.
    pub open spec fn nothing() -> PokerHandSet {
        PokerHandSet {
            pair: false,
            two_pair: false,
            three_of_a_kind: false,
            straight: false,
            flush: false,
            full_house: false,
            four_of_a_kind: false,
            straight_flush: false,
            royal_flush: false,
            flush_house: false,
            five_of_a_kind: false,
            flush_five: false,
        }
    }

    /// The set with `x` added.
    pub open spec fn with(self, x: PokerHand) -> PokerHandSet {
        PokerHandSet {
            pair: self.pair || x == PokerHand::Pair,
            two_pair: self.two_pair || x == PokerHand::TwoPair,
            three_of_a_kind: self.three_of_a_kind || x == PokerHand::ThreeOfAKind,
            straight: self.straight || x == PokerHand::Straight,
            flush: self.flush || x == PokerHand::Flush,
            full_house: self.full_house || x == PokerHand::FullHouse,
            four_of_a_kind: self.four_of_a_kind || x == PokerHand::FourOfAKind,
            straight_flush: self.straight_flush || x == PokerHand::StraightFlush,
            royal_flush: self.royal_flush || x == PokerHand::RoyalFlush,
            flush_house: self.flush_house || x == PokerHand::FlushHouse,
            five_of_a_kind: self.five_of_a_kind || x == PokerHand::FiveOfAKind,
            flush_five: self.flush_five || x == PokerHand::FlushFive,
        }
    }

    /// The set with `x` added where `cond` holds, and the set itself where not.
    pub open spec fn with_if(self, cond: bool, x: PokerHand) -> PokerHandSet {
        if cond {
            self.with(x)
        } else {
            self
        }
    }

    /// The members of either set.
    pub open spec fn union(self, other: PokerHandSet) -> PokerHandSet {
        PokerHandSet {
            pair: self.pair || other.pair,
            two_pair: self.two_pair || other.two_pair,
            three_of_a_kind: self.three_of_a_kind || other.three_of_a_kind,
            straight: self.straight || other.straight,
            flush: self.flush || other.flush,
            full_house: self.full_house || other.full_house,
            four_of_a_kind: self.four_of_a_kind || other.four_of_a_kind,
            straight_flush: self.straight_flush || other.straight_flush,
            royal_flush: self.royal_flush || other.royal_flush,
            flush_house: self.flush_house || other.flush_house,
            five_of_a_kind: self.five_of_a_kind || other.five_of_a_kind,
            flush_five: self.flush_five || other.flush_five,
        }
    }


    /// Makes the set without members.
    pub fn new() -> (s: PokerHandSet)
        ensures
            s == PokerHandSet::nothing(),
            s@ == Set::<PokerHand>::empty(),
    {
        let s = PokerHandSet {
            pair: false,
            two_pair: false,
            three_of_a_kind: false,
            straight: false,
            flush: false,
            full_house: false,
            four_of_a_kind: false,
            straight_flush: false,
            royal_flush: false,
            flush_house: false,
            five_of_a_kind: false,
            flush_five: false,
        };
        assert(s@ =~= Set::<PokerHand>::empty());
        s
    }

    /// Adds `x` to the set.
    pub fn insert(&mut self, x: PokerHand)
        ensures
            *final(self) == old(self).with(x),
            final(self)@ == old(self)@.insert(x),
    {
        match x {
            PokerHand::Pair => {
                self.pair = true;
            },
            PokerHand::TwoPair => {
                self.two_pair = true;
            },
            PokerHand::ThreeOfAKind => {
                self.three_of_a_kind = true;
            },
            PokerHand::Straight => {
                self.straight = true;
            },
            PokerHand::Flush => {
                self.flush = true;
            },
            PokerHand::FullHouse => {
                self.full_house = true;
            },
            PokerHand::FourOfAKind => {
                self.four_of_a_kind = true;
            },
            PokerHand::StraightFlush => {
                self.straight_flush = true;
            },
            PokerHand::RoyalFlush => {
                self.royal_flush = true;
            },
            PokerHand::FlushHouse => {
                self.flush_house = true;
            },
            PokerHand::FiveOfAKind => {
                self.five_of_a_kind = true;
            },
            PokerHand::FlushFive => {
                self.flush_five = true;
            },
        }
        proof {
            lemma_with_view(*old(self), x);
        }
    }

    /// Adds `x` to the set where `cond` holds.
    pub fn insert_if(&mut self, cond: bool, x: PokerHand)
        ensures
            *final(self) == old(self).with_if(cond, x),
    {
        if cond {
            self.insert(x);
        }
    }

    /// Whether `x` is in the set.
    pub fn contains(&self, x: PokerHand) -> (b: bool)
        ensures
            b == self.has(x),
            b == self@.contains(x),
    {
        match x {
            PokerHand::Pair => self.pair,
            PokerHand::TwoPair => self.two_pair,
            PokerHand::ThreeOfAKind => self.three_of_a_kind,
            PokerHand::Straight => self.straight,
            PokerHand::Flush => self.flush,
            PokerHand::FullHouse => self.full_house,
            PokerHand::FourOfAKind => self.four_of_a_kind,
            PokerHand::StraightFlush => self.straight_flush,
            PokerHand::RoyalFlush => self.royal_flush,
            PokerHand::FlushHouse => self.flush_house,
            PokerHand::FiveOfAKind => self.five_of_a_kind,
            PokerHand::FlushFive => self.flush_five,
        }
    }

    /// Whether the set has no member.
    pub fn is_empty(&self) -> (b: bool)
        ensures
            b == (self == PokerHandSet::nothing()),
            b == (self@ == Set::<PokerHand>::empty()),
    {
        let b = !(self.pair || self.two_pair || self.three_of_a_kind || self.straight
            || self.flush || self.full_house || self.four_of_a_kind || self.straight_flush
            || self.royal_flush || self.flush_house || self.five_of_a_kind
            || self.flush_five);
        proof {
            if b {
                assert(self@ =~= Set::<PokerHand>::empty());
            } else {
                if self.pair {
                    assert(self@.contains(PokerHand::Pair));
                }
                if self.two_pair {
                    assert(self@.contains(PokerHand::TwoPair));
                }
                if self.three_of_a_kind {
                    assert(self@.contains(PokerHand::ThreeOfAKind));
                }
                if self.straight {
                    assert(self@.contains(PokerHand::Straight));
                }
                if self.flush {
                    assert(self@.contains(PokerHand::Flush));
                }
                if self.full_house {
                    assert(self@.contains(PokerHand::FullHouse));
                }
                if self.four_of_a_kind {
                    assert(self@.contains(PokerHand::FourOfAKind));
                }
                if self.straight_flush {
                    assert(self@.contains(PokerHand::StraightFlush));
                }
                if self.royal_flush {
                    assert(self@.contains(PokerHand::RoyalFlush));
                }
                if self.flush_house {
                    assert(self@.contains(PokerHand::FlushHouse));
                }
                if self.five_of_a_kind {
                    assert(self@.contains(PokerHand::FiveOfAKind));
                }
                if self.flush_five {
                    assert(self@.contains(PokerHand::FlushFive));
                }
            }
        }
        b
    }

    /// Adds the members of `other` to the set.
    pub fn extend(&mut self, other: &PokerHandSet)
        ensures
            *final(self) == old(self).union(*other),
            final(self)@ == old(self)@.union(other@),
    {
        self.pair = self.pair || other.pair;
        self.two_pair = self.two_pair || other.two_pair;
        self.three_of_a_kind = self.three_of_a_kind || other.three_of_a_kind;
        self.straight = self.straight || other.straight;
        self.flush = self.flush || other.flush;
        self.full_house = self.full_house || other.full_house;
        self.four_of_a_kind = self.four_of_a_kind || other.four_of_a_kind;
        self.straight_flush = self.straight_flush || other.straight_flush;
        self.royal_flush = self.royal_flush || other.royal_flush;
        self.flush_house = self.flush_house || other.flush_house;
        self.five_of_a_kind = self.five_of_a_kind || other.five_of_a_kind;
        self.flush_five = self.flush_five || other.flush_five;
        proof {
            lemma_union_view(*old(self), *other);
        }
    }
}

/// The set with `x` added holds `x` and what the set held.
pub proof fn lemma_with_has(s: PokerHandSet, x: PokerHand)
    ensures
        forall|y: PokerHand| #[trigger] s.with(x).has(y) == (s.has(y) || y == x),
{
}

/// Adding a member to the struct adds it to the set the struct stands for.
pub proof fn lemma_with_view(s: PokerHandSet, x: PokerHand)
    ensures
        s.with(x)@ == s@.insert(x),
{
    assert forall|y: PokerHand| s.with(x).has(y) == (s.has(y) || y == x) by {}
    assert(s.with(x)@ =~= s@.insert(x));
}

/// The union of two structs stands for the union of their sets.
pub proof fn lemma_union_view(a: PokerHandSet, b: PokerHandSet)
    ensures
        a.union(b)@ == a@.union(b@),
{
    assert forall|y: PokerHand| a.union(b).has(y) == (a.has(y) || b.has(y)) by {}
    assert(a.union(b)@ =~= a@.union(b@));
}

} // verus!
