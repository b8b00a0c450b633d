//! Small sets of suits.
use vstd::prelude::*;
use crate::card::Suit;

verus! {

/// A set of suits.
#[derive(Clone, Copy, Debug, PartialEq, Eq, Structural)]
pub struct SuitSet {
    pub none: bool,
    pub clubs: bool,
    pub diamonds: bool,
    pub hearts: bool,
    pub spades: bool,
    pub wild: bool,
}

impl View for SuitSet {
    type V = Set<Suit>;

    /// The members, as a set.
    open spec fn view(&self) -> Set<Suit> {
        Set::new(|x: Suit| self.has(x))
    }
}

impl SuitSet {
    /// Whether `x` is a member.
    pub open spec fn has(self, x: Suit) -> bool {
        match x {
            Suit::NONE => self.none,
            Suit::Clubs => self.clubs,
            Suit::Diamonds => self.diamonds,
            Suit::Hearts => self.hearts,
            Suit::Spades => self.spades,
            Suit::Wild => self.wild,
        }
    }

    /// The set without members.
    pub open spec fn nothing() -> SuitSet {
        SuitSet {
            none: false,
            clubs: false,
            diamonds: false,
            hearts: false,
            spades: false,
            wild: false,
        }
    }

    /// The set with `x` added.
    pub open spec fn with(self, x: Suit) -> SuitSet {
        SuitSet {
            none: self.none || x == Suit::NONE,
            clubs: self.clubs || x == Suit::Clubs,
            diamonds: self.diamonds || x == Suit::Diamonds,
            hearts: self.hearts || x == Suit::Hearts,
            spades: self.spades || x == Suit::Spades,
            wild: self.wild || x == Suit::Wild,
        }
    }

    /// The set with `x` added where `cond` holds, and the set itself where not.
    pub open spec fn with_if(self, cond: bool, x: Suit) -> SuitSet {
        if cond {
            self.with(x)
        } else {
            self
        }
    }

    /// The members of either set.
    pub open spec fn union(self, other: SuitSet) -> SuitSet {
        SuitSet {
            none: self.none || other.none,
            clubs: self.clubs || other.clubs,
            diamonds: self.diamonds || other.diamonds,
            hearts: self.hearts || other.hearts,
            spades: self.spades || other.spades,
            wild: self.wild || other.wild,
        }
    }

    /// The number of members.
    pub open spec fn count(self) -> nat {
        unit(self.none) + unit(self.clubs) + unit(self.diamonds) + unit(self.hearts)
            + unit(self.spades) + unit(self.wild)
    }


    /// Makes the set without members.
    pub fn new() -> (s: SuitSet)
        ensures
            s == SuitSet::nothing(),
            s@ == Set::<Suit>::empty(),
    {
        let s = SuitSet {
            none: false,
            clubs: false,
            diamonds: false,
            hearts: false,
            spades: false,
            wild: false,
        };
        assert(s@ =~= Set::<Suit>::empty());
        s
    }

    /// Adds `x` to the set.
    pub fn insert(&mut self, x: Suit)
        ensures
            *final(self) == old(self).with(x),
            final(self)@ == old(self)@.insert(x),
    {
        match x {
            Suit::NONE => {
                self.none = true;
            },
            Suit::Clubs => {
                self.clubs = true;
            },
            Suit::Diamonds => {
                self.diamonds = true;
            },
            Suit::Hearts => {
                self.hearts = true;
            },
            Suit::Spades => {
                self.spades = true;
            },
            Suit::Wild => {
                self.wild = true;
            },
        }
        proof {
            lemma_with_view(*old(self), x);
        }
    }

    /// Adds `x` to the set where `cond` holds.
    pub fn insert_if(&mut self, cond: bool, x: Suit)
        ensures
            *final(self) == old(self).with_if(cond, x),
    {
        if cond {
            self.insert(x);
        }
    }

    /// Whether `x` is in the set.
    pub fn contains(&self, x: Suit) -> (b: bool)
        ensures
            b == self.has(x),
            b == self@.contains(x),
    {
        match x {
            Suit::NONE => self.none,
            Suit::Clubs => self.clubs,
            Suit::Diamonds => self.diamonds,
            Suit::Hearts => self.hearts,
            Suit::Spades => self.spades,
            Suit::Wild => self.wild,
        }
    }

    /// The number of members.
    pub fn len(&self) -> (n: usize)
        ensures
            n == self.count(),
            n == self@.len(),
    {
        proof {
            lemma_count_is_cardinality(*self);
        }
        one_if(self.none) + one_if(self.clubs) + one_if(self.diamonds)
            + one_if(self.hearts) + one_if(self.spades) + one_if(self.wild)
    }

    /// Whether the set has no member.
    pub fn is_empty(&self) -> (b: bool)
        ensures
            b == (self == SuitSet::nothing()),
            b == (self@ == Set::<Suit>::empty()),
    {
        let b = !(self.none || self.clubs || self.diamonds || self.hearts || self.spades
            || self.wild);
        proof {
            if b {
                assert(self@ =~= Set::<Suit>::empty());
            } else {
                if self.none {
                    assert(self@.contains(Suit::NONE));
                }
                if self.clubs {
                    assert(self@.contains(Suit::Clubs));
                }
                if self.diamonds {
                    assert(self@.contains(Suit::Diamonds));
                }
                if self.hearts {
                    assert(self@.contains(Suit::Hearts));
                }
                if self.spades {
                    assert(self@.contains(Suit::Spades));
                }
                if self.wild {
                    assert(self@.contains(Suit::Wild));
                }
            }
        }
        b
    }

    /// Adds the members of `other` to the set.
    pub fn extend(&mut self, other: &SuitSet)
        ensures
            *final(self) == old(self).union(*other),
            final(self)@ == old(self)@.union(other@),
    {
        self.none = self.none || other.none;
        self.clubs = self.clubs || other.clubs;
        self.diamonds = self.diamonds || other.diamonds;
        self.hearts = self.hearts || other.hearts;
        self.spades = self.spades || other.spades;
        self.wild = self.wild || other.wild;
        proof {
            lemma_union_view(*old(self), *other);
        }
    }
}

/// One where `b` holds, zero where not.
pub open spec fn unit(b: bool) -> nat {
    if b {
        1
    } else {
        0
    }
}

/// One where `b` holds, zero where not.
fn one_if(b: bool) -> (n: usize)
    ensures
        n == unit(b),
{
    if b {
        1
    } else {
        0
    }
}

/// The members of a set are finitely many, and `count` is their number.
pub proof fn lemma_count_is_cardinality(s: SuitSet)
    ensures
        s@.finite(),
        s@.len() == s.count(),
{
    let e = Set::<Suit>::empty();
    let s_none = if s.none {
        e.insert(Suit::NONE)
    } else {
        e
    };
    let s_clubs = if s.clubs {
        s_none.insert(Suit::Clubs)
    } else {
        s_none
    };
    let s_diamonds = if s.diamonds {
        s_clubs.insert(Suit::Diamonds)
    } else {
        s_clubs
    };
    let s_hearts = if s.hearts {
        s_diamonds.insert(Suit::Hearts)
    } else {
        s_diamonds
    };
    let s_spades = if s.spades {
        s_hearts.insert(Suit::Spades)
    } else {
        s_hearts
    };
    let s_wild = if s.wild {
        s_spades.insert(Suit::Wild)
    } else {
        s_spades
    };
    assert(s@ =~= s_wild);
}

/// The set with `x` added holds `x` and what the set held.
pub proof fn lemma_with_has(s: SuitSet, x: Suit)
    ensures
        forall|y: Suit| #[trigger] s.with(x).has(y) == (s.has(y) || y == x),
{
}

/// Adding a member to the struct adds it to the set the struct stands for.
pub proof fn lemma_with_view(s: SuitSet, x: Suit)
    ensures
        s.with(x)@ == s@.insert(x),
{
    assert forall|y: Suit| s.with(x).has(y) == (s.has(y) || y == x) by {}
    assert(s.with(x)@ =~= s@.insert(x));
}

/// The union of two structs stands for the union of their sets.
pub proof fn lemma_union_view(a: SuitSet, b: SuitSet)
    ensures
        a.union(b)@ == a@.union(b@),
{
    assert forall|y: Suit| a.union(b).has(y) == (a.has(y) || b.has(y)) by {}
    assert(a.union(b)@ =~= a@.union(b@));
}

} // verus!
