//! Counting the cards of a rank or of a suit.
use vstd::prelude::*;
use vstd::seq_lib::{to_multiset_build, to_multiset_remove};
use crate::card::{Card, Rank, Suit};

verus! {

/// What a group of cards has in common: a rank or a suit.
#[derive(Clone, Copy, Debug, PartialEq, Eq, Structural)]
pub enum CardKind {
    OfRank(Rank),
    OfSuit(Suit),
}

impl CardKind {
    /// Whether `c` is of this kind.
    pub open spec fn holds(self, c: Card) -> bool {
        match self {
            CardKind::OfRank(rank) => c.rank == rank,
            CardKind::OfSuit(suit) => c.suit == suit,
        }
    }

    /// The cards of this kind.
    pub open spec fn chosen(self) -> spec_fn(Card) -> bool {
        |c: Card| self.holds(c)
    }

    /// The cards of any other kind.
    pub open spec fn others(self) -> spec_fn(Card) -> bool {
        |c: Card| !self.holds(c)
    }

    /// Whether `c` is of this kind.
    pub fn matches(&self, c: &Card) -> (b: bool)
        ensures
            b == self.holds(*c),
    {
        match self {
            CardKind::OfRank(rank) => c.rank == *rank,
            CardKind::OfSuit(suit) => c.suit == *suit,
        }
    }
}

/// The number of cards of the given kind.
pub open spec fn number_of(cards: Seq<Card>, kind: CardKind) -> nat {
    cards.filter(kind.chosen()).len()
}

/// One where `c` is of the kind, zero where not.
pub open spec fn one_if(kind: CardKind, c: Card) -> nat {
    if kind.holds(c) {
        1
    } else {
        0
    }
}

/// No card of any kind among no cards.
pub proof fn lemma_number_of_none(kind: CardKind)
    ensures
        number_of(Seq::empty(), kind) == 0,
{
    Seq::<Card>::empty().lemma_filter_len(kind.chosen());
}

/// One more card is one more of its kinds, and no more of any other.
pub proof fn lemma_number_of_push(cards: Seq<Card>, c: Card, kind: CardKind)
    ensures
        number_of(cards.push(c), kind) == number_of(cards, kind) + one_if(kind, c),
{
    cards.lemma_filter_push(c, kind.chosen());
}

/// The cards of a kind are at most all cards.
pub proof fn lemma_number_of_bound(cards: Seq<Card>, kind: CardKind)
    ensures
        number_of(cards, kind) <= cards.len(),
{
    cards.lemma_filter_len(kind.chosen());
}

/// What follows `first` in a sequence adds to the number of a kind.
pub proof fn lemma_number_of_add(first: Seq<Card>, second: Seq<Card>, kind: CardKind)
    ensures
        number_of(first + second, kind) == number_of(first, kind) + number_of(second, kind),
{
    Seq::filter_distributes_over_add(first, second, kind.chosen());
}

/// How many cards meet a condition does not depend on the order of the cards.
pub proof fn lemma_filter_len_permutation(a: Seq<Card>, b: Seq<Card>, p: spec_fn(Card) -> bool)
    requires
        a.to_multiset() == b.to_multiset(),
    ensures
        a.filter(p).len() == b.filter(p).len(),
    decreases a.len(),
{
    broadcast use vstd::multiset::group_multiset_axioms;

    a.to_multiset_ensures();
    b.to_multiset_ensures();
    if a.len() == 0 {
        assert(b.len() == 0);
        assert(a =~= b);
    } else {
        let x = a.last();
        let rest = a.drop_last();
        assert(a =~= rest.push(x));
        to_multiset_build(rest, x);
        assert(a.contains(x));
        assert(b.to_multiset().count(x) > 0);
        assert(b.contains(x));
        let k = choose|k: int| 0 <= k < b.len() && b[k] == x;
        let others = b.remove(k);
        to_multiset_remove(b, k);
        assert(rest.to_multiset() =~= others.to_multiset());
        lemma_filter_len_permutation(rest, others, p);
        rest.lemma_filter_push(x, p);
        let front = b.subrange(0, k);
        let back = b.subrange(k + 1, b.len() as int);
        assert(b =~= front.push(x) + back);
        assert(others =~= front + back);
        Seq::filter_distributes_over_add(front.push(x), back, p);
        Seq::filter_distributes_over_add(front, back, p);
        front.lemma_filter_push(x, p);
    }
}

/// The number of cards of a kind does not depend on the order of the cards.
pub proof fn lemma_number_of_permutation(a: Seq<Card>, b: Seq<Card>, kind: CardKind)
    requires
        a.to_multiset() == b.to_multiset(),
    ensures
        number_of(a, kind) == number_of(b, kind),
{
    lemma_filter_len_permutation(a, b, kind.chosen());
}

/// Two kinds that no card is of both have no card in common.
pub proof fn lemma_two_kinds_share_no_card(cards: Seq<Card>, a: CardKind, b: CardKind)
    requires
        forall|c: Card| !(a.holds(c) && b.holds(c)),
    ensures
        number_of(cards, a) + number_of(cards, b) <= cards.len(),
    decreases cards.len(),
{
    if cards.len() == 0 {
        lemma_number_of_none(a);
        lemma_number_of_none(b);
        assert(cards =~= Seq::<Card>::empty());
    } else {
        let rest = cards.drop_last();
        assert(cards =~= rest.push(cards.last()));
        lemma_two_kinds_share_no_card(rest, a, b);
        lemma_number_of_push(rest, cards.last(), a);
        lemma_number_of_push(rest, cards.last(), b);
    }
}

/// Two different cards of one rank are, taken together, at most as many as the
/// cards of that rank.
pub proof fn lemma_cards_of_a_rank(cards: Seq<Card>, a: Card, b: Card)
    requires
        a.rank == b.rank,
        a != b,
    ensures
        cards.to_multiset().count(a) + cards.to_multiset().count(b) <= number_of(
            cards,
            CardKind::OfRank(a.rank),
        ),
    decreases cards.len(),
{
    broadcast use vstd::multiset::group_multiset_axioms;

    if cards.len() == 0 {
        cards.to_multiset_ensures();
        assert(cards.to_multiset() =~= vstd::multiset::Multiset::<Card>::empty());
    } else {
        let rest = cards.drop_last();
        assert(cards =~= rest.push(cards.last()));
        lemma_cards_of_a_rank(rest, a, b);
        to_multiset_build(rest, cards.last());
        lemma_number_of_push(rest, cards.last(), CardKind::OfRank(a.rank));
    }
}

} // verus!
