//! The pool of cards from which hands are drawn.
use rand::seq::SliceRandom;
use vstd::prelude::*;
use vstd::seq_lib::to_multiset_build;
use vstd::string::StringExecFns;
use crate::card::{Card, CardEntry, Rank, Suit};
use crate::counting::{number_of, CardKind};
use crate::hand::Hand;
use crate::sorting::{sort_cards, stably_sorted, CardOrder};
use crate::utils::statistics::{
    lemma_selection_splits_pool,
    lemma_selection_within_pool,
    pick_without_replacement,
    picked,
    random_choices,
    valid_choices,
};

verus! {

/// An ordered pool of cards. A card may occur more than once.
#[derive(Debug, Clone)]
pub struct Deck {
    pub cards: Vec<Card>,
}

impl View for Deck {
    type V = Seq<Card>;

    /// The cards, in their order.
    open spec fn view(&self) -> Seq<Card> {
        self.cards@
    }
}

impl From<Vec<Card>> for Deck {
    /// Makes a deck of the given cards, in the given order.
    fn from(cards: Vec<Card>) -> (deck: Deck) {
        Deck { cards }
    }
}

impl vstd::std_specs::convert::FromSpecImpl<Vec<Card>> for Deck {
    open spec fn obeys_from_spec() -> bool {
        true
    }

    open spec fn from_spec(cards: Vec<Card>) -> Deck {
        Deck { cards }
    }
}

/// The real suits in their order: `Clubs, Diamonds, Hearts, Spades`.
pub open spec fn real_suit(i: int) -> Suit {
    if i == 0 {
        Suit::Clubs
    } else if i == 1 {
        Suit::Diamonds
    } else if i == 2 {
        Suit::Hearts
    } else {
        Suit::Spades
    }
}

/// The standard deck: for each real suit in turn, the thirteen cards from
/// `Two` to `Ace`. It holds 52 cards and no wildcard.
pub open spec fn standard_cards() -> Seq<Card> {
    Seq::new(
        52,
        |i: int| Card { rank: Rank::from_value((i % 13 + 2) as nat), suit: real_suit(i / 13) },
    )
}

/// The standard deck holds 52 cards, all different: every card of a real rank
/// and a real suit, and no other.
pub proof fn lemma_standard_cards()
    ensures
        standard_cards().len() == 52,
        standard_cards().no_duplicates(),
        forall|c: Card| standard_cards().contains(c) <==> c.rank.is_real() && c.suit.is_real(),
{
    let deck = standard_cards();
    assert forall|c: Card| c.rank.is_real() && c.suit.is_real() implies deck.contains(c) by {
        let i = (c.suit.position() - 1) * 13 + c.rank.value() - 2;
        assert(0 <= i < 52);
        assert(deck[i] == c);
    }
    assert forall|c: Card| deck.contains(c) implies c.rank.is_real() && c.suit.is_real() by {
        let i = choose|i: int| 0 <= i < deck.len() && deck[i] == c;
        assert(0 <= i % 13 < 13 && 0 <= i / 13 < 4);
    }
    assert forall|i: int, j: int|
        0 <= i < deck.len() && 0 <= j < deck.len() && i != j implies deck[i] != deck[j] by {
        assert(0 <= i % 13 < 13 && 0 <= i / 13 < 4);
        assert(0 <= j % 13 < 13 && 0 <= j / 13 < 4);
        assert(i == 13 * (i / 13) + i % 13 && j == 13 * (j / 13) + j % 13);
    }
}

/// Every entry holds both a number and a label.
pub open spec fn all_complete(entries: Seq<CardEntry>) -> bool {
    forall|i: int| 0 <= i < entries.len() ==> (#[trigger] entries[i]).is_complete()
}

/// `s` without the first `k` of its cards of the given kind, or without all of
/// them where they are fewer: a card stays unless it is of that kind and fewer
/// than `k` cards of that kind come before it.
pub open spec fn without_first(s: Seq<Card>, kind: CardKind, k: nat) -> Seq<Card>
    decreases s.len(),
{
    if s.len() == 0 {
        s
    } else {
        let front = without_first(s.drop_last(), kind, k);
        if kind.holds(s.last()) && number_of(s.drop_last(), kind) < k {
            front
        } else {
            front.push(s.last())
        }
    }
}

/// Removing up to `k` cards of a kind removes `k` of them, or all where they
/// are fewer, and leaves the other cards as they are and where they are among
/// themselves.
pub proof fn lemma_without_first(s: Seq<Card>, kind: CardKind, k: nat)
    ensures
        without_first(s, kind, k).filter(kind.others()) == s.filter(kind.others()),
        number_of(without_first(s, kind, k), kind) == if number_of(s, kind) <= k {
            0
        } else {
            number_of(s, kind) - k
        },
        without_first(s, kind, k).len() == s.len() - if number_of(s, kind) <= k {
            number_of(s, kind)
        } else {
            k
        },
        number_of(s, kind) <= k ==> without_first(s, kind, k) == s.filter(kind.others()),
        k == 0 ==> without_first(s, kind, k) == s,
    decreases s.len(),
{
    if s.len() == 0 {
        assert(s.filter(kind.others()) =~= s) by {
            s.lemma_filter_len(kind.others());
        }
        assert(s.filter(kind.chosen()) =~= s) by {
            s.lemma_filter_len(kind.chosen());
        }
    } else {
        let init = s.drop_last();
        let x = s.last();
        lemma_without_first(init, kind, k);
        assert(s =~= init.push(x));
        init.lemma_filter_push(x, kind.chosen());
        init.lemma_filter_push(x, kind.others());
        let front = without_first(init, kind, k);
        front.lemma_filter_push(x, kind.chosen());
        front.lemma_filter_push(x, kind.others());
    }
}

/// How often a card occurs is how many cards equal to it there are.
pub proof fn lemma_count_is_filter_len(s: Seq<Card>, card: Card)
    ensures
        s.to_multiset().count(card) == s.filter(|c: Card| c == card).len(),
    decreases s.len(),
{
    broadcast use vstd::multiset::group_multiset_axioms;

    let same = |c: Card| c == card;
    if s.len() == 0 {
        s.to_multiset_ensures();
        assert(s.to_multiset() =~= vstd::multiset::Multiset::<Card>::empty());
        s.lemma_filter_len(same);
    } else {
        let init = s.drop_last();
        lemma_count_is_filter_len(init, card);
        assert(s =~= init.push(s.last()));
        to_multiset_build(init, s.last());
        init.lemma_filter_push(s.last(), same);
    }
}

/// Hands the cards to `rand::seq::SliceRandom::shuffle` with the generator of
/// the running thread. `shuffle` walks the slice from its end and swaps each
/// item with one at a random position not behind it, so the cards are the same
/// afterwards, each as often as before; their order is not stated. The
/// generator is seeded from the system when a thread first asks for it, and
/// cannot be had where the system gives no seed.
#[verifier::external_body]
fn shuffle_cards(cards: &mut Vec<Card>)
    ensures
        final(cards)@.to_multiset() == old(cards)@.to_multiset(),
{
    let mut rng = rand::thread_rng();
    cards.shuffle(&mut rng);
}

/// Appends the standard deck to an empty pool.
fn fill_standard(cards: &mut Vec<Card>)
    requires
        old(cards)@.len() == 0,
    ensures
        final(cards)@ == standard_cards(),
{
    let mut s: usize = 0;
    while s < 4
        invariant
            s <= 4,
            cards@.len() == s * 13,
            forall|i: int| 0 <= i < cards@.len() ==> cards@[i] == standard_cards()[i],
        decreases 4 - s,
    {
        let suit = if s == 0 {
            Suit::Clubs
        } else if s == 1 {
            Suit::Diamonds
        } else if s == 2 {
            Suit::Hearts
        } else {
            Suit::Spades
        };
        let mut rank: usize = 2;
        while rank <= 14
            invariant
                s < 4,
                2 <= rank <= 15,
                suit == real_suit(s as int),
                cards@.len() == s * 13 + (rank - 2),
                forall|i: int| 0 <= i < cards@.len() ==> cards@[i] == standard_cards()[i],
            decreases 15 - rank,
        {
            cards.push(Card { suit, rank: Rank::from(rank) });
            rank += 1;
        }
        s += 1;
    }
    assert(cards@ =~= standard_cards());
}

/// Removes every card of the given kind.
fn remove_all(cards: &mut Vec<Card>, kind: CardKind)
    ensures
        final(cards)@ == old(cards)@.filter(kind.others()),
{
    let mut kept: Vec<Card> = Vec::new();
    let mut i: usize = 0;
    proof {
        assert(cards@.take(0) =~= Seq::<Card>::empty());
        Seq::<Card>::empty().lemma_filter_len(kind.others());
    }
    while i < cards.len()
        invariant
            i <= cards.len(),
            kept@ == cards@.take(i as int).filter(kind.others()),
        decreases cards.len() - i,
    {
        let card = cards[i];
        proof {
            assert(cards@.take(i + 1) =~= cards@.take(i as int).push(card));
            cards@.take(i as int).lemma_filter_push(card, kind.others());
        }
        if !kind.matches(&card) {
            kept.push(card);
        }
        i += 1;
    }
    assert(cards@.take(i as int) =~= cards@);
    *cards = kept;
}

/// Removes the first `count` cards of the given kind, or all of them where
/// they are fewer.
fn remove_up_to(cards: &mut Vec<Card>, kind: CardKind, count: u64)
    ensures
        final(cards)@ == without_first(old(cards)@, kind, count as nat),
{
    let mut kept: Vec<Card> = Vec::new();
    let mut removed: u64 = 0;
    let mut i: usize = 0;
    proof {
        assert(cards@.take(0) =~= Seq::<Card>::empty());
        Seq::<Card>::empty().lemma_filter_len(kind.chosen());
    }
    while i < cards.len()
        invariant
            i <= cards.len(),
            kept@ == without_first(cards@.take(i as int), kind, count as nat),
            removed <= count,
            removed < count ==> removed == number_of(cards@.take(i as int), kind),
            removed == count ==> count <= number_of(cards@.take(i as int), kind),
        decreases cards.len() - i,
    {
        let card = cards[i];
        proof {
            assert(cards@.take(i + 1) =~= cards@.take(i as int).push(card));
            assert(cards@.take(i + 1).drop_last() =~= cards@.take(i as int));
            cards@.take(i as int).lemma_filter_push(card, kind.chosen());
        }
        if kind.matches(&card) && removed < count {
            removed += 1;
        } else {
            kept.push(card);
        }
        i += 1;
    }
    assert(cards@.take(i as int) =~= cards@);
    *cards = kept;
}

/// Counts the cards of the given kind.
fn count_kind(cards: &Vec<Card>, kind: CardKind) -> (n: u64)
    ensures
        n == number_of(cards@, kind),
{
    let mut n: u64 = 0;
    let mut i: usize = 0;
    proof {
        assert(cards@.take(0) =~= Seq::<Card>::empty());
        Seq::<Card>::empty().lemma_filter_len(kind.chosen());
    }
    while i < cards.len()
        invariant
            i <= cards.len(),
            n <= i,
            n == number_of(cards@.take(i as int), kind),
        decreases cards.len() - i,
    {
        proof {
            assert(cards@.take(i + 1) =~= cards@.take(i as int).push(cards@[i as int]));
            cards@.take(i as int).lemma_filter_push(cards@[i as int], kind.chosen());
        }
        if kind.matches(&cards[i]) {
            n += 1;
        }
        i += 1;
    }
    assert(cards@.take(i as int) =~= cards@);
    n
}

impl Deck {
    /// Makes a deck from a list of entries that may be missing. A missing
    /// list is refused with `Invalid deck object`, and a list with an
    /// incomplete entry with `Invalid card object`; otherwise the deck holds the
    /// cards that the entries stand for, in their order.
    pub fn from_entries(entries: Option<&Vec<CardEntry>>) -> (r: Result<Deck, String>)
        ensures
            match entries {
                None => r is Err && r->Err_0@ == "Invalid deck object"@,
                Some(list) => if all_complete(list@) {
                    &&& r is Ok
                    &&& r->Ok_0@.len() == list@.len()
                    &&& forall|i: int|
                        0 <= i < list@.len() ==> r->Ok_0@[i] == (#[trigger] list@[i]).card()
                } else {
                    r is Err && r->Err_0@ == "Invalid card object"@
                },
            },
    {
        let list = match entries {
            Some(list) => list,
            None => {
                return Err(String::from_str("Invalid deck object"));
            },
        };
        let mut cards: Vec<Card> = Vec::new();
        let mut i: usize = 0;
        while i < list.len()
            invariant
                i <= list.len(),
                entries == Some(list),
                cards@.len() == i,
                forall|j: int| 0 <= j < i ==> (#[trigger] list@[j]).is_complete(),
                forall|j: int| 0 <= j < i ==> cards@[j] == (#[trigger] list@[j]).card(),
            decreases list.len() - i,
        {
            let entry = &list[i];
            let suit = match &entry.suit {
                Some(suit) => suit,
                None => {
                    assert(!list@[i as int].is_complete());
                    return Err(String::from_str("Invalid card object"));
                },
            };
            let rank = match entry.rank {
                Some(rank) => rank,
                None => {
                    assert(!list@[i as int].is_complete());
                    return Err(String::from_str("Invalid card object"));
                },
            };
            cards.push(Card::from_parts(rank, suit.as_str()));
            i += 1;
        }
        Ok(Deck { cards })
    }

    /// The cards of the deck as numbers and labels, in their order.
    pub fn to_entries(&self) -> (entries: Vec<(usize, &'static str)>)
        ensures
            entries@.len() == self@.len(),
            forall|i: int|
                0 <= i < self@.len() ==> (#[trigger] entries@[i]).0 == self@[i].rank.value()
                    && entries@[i].1@ == self@[i].suit.name(),
    {
        let mut entries: Vec<(usize, &'static str)> = Vec::new();
        let mut i: usize = 0;
        while i < self.cards.len()
            invariant
                i <= self.cards.len(),
                entries@.len() == i,
                forall|j: int|
                    0 <= j < i ==> (#[trigger] entries@[j]).0 == self@[j].rank.value()
                        && entries@[j].1@ == self@[j].suit.name(),
            decreases self.cards.len() - i,
        {
            entries.push(self.cards[i].to_parts());
            i += 1;
        }
        entries
    }

    /// Makes the standard deck of 52 cards.
    pub fn new() -> (deck: Deck)
        ensures
            deck@ == standard_cards(),
    {
        let mut cards = Vec::new();
        fill_standard(&mut cards);
        Deck { cards }
    }

    /// Turns the deck into the standard deck, whatever it held.
    pub fn reset(&mut self)
        ensures
            final(self)@ == standard_cards(),
    {
        self.cards.clear();
        fill_standard(&mut self.cards);
    }

    /// Puts a card at the end of the deck, whether or not the deck holds it
    /// already.
    pub fn add_card(&mut self, card: Card)
        ensures
            final(self)@ == old(self)@.push(card),
    {
        self.cards.push(card);
    }

    /// Removes the first card equal to `card`; a deck without one stays as it is.
    pub fn remove_card(&mut self, card: &Card)
        ensures
            final(self)@ == old(self)@.remove_value(*card),
            !old(self)@.contains(*card) ==> final(self)@ == old(self)@,
            old(self)@.contains(*card) ==> final(self)@.to_multiset()
                == old(self)@.to_multiset().remove(*card),
    {
        let mut i: usize = 0;
        while i < self.cards.len()
            invariant
                i <= self.cards.len(),
                self@ == old(self)@,
                forall|j: int| 0 <= j < i ==> self@[j] != *card,
            decreases self.cards.len() - i,
        {
            if self.cards[i] == *card {
                proof {
                    vstd::seq_lib::to_multiset_remove(self@, i as int);
                    self@.index_of_first_ensures(*card);
                    assert(self@[i as int] == *card);
                    assert(self@.contains(*card));
                    let first = self@.index_of_first(*card).unwrap();
                    assert(first == i) by {
                        if first < i {
                            assert(self@[first] != *card);
                        } else if first > i {
                            assert(self@[i as int] != *card);
                        }
                    }
                }
                self.cards.remove(i);
                return ;
            }
            i += 1;
        }
        proof {
            self@.index_of_first_ensures(*card);
        }
    }

    /// Removes every card of the given suit.
    pub fn remove_suits(&mut self, suit: &Suit)
        ensures
            final(self)@ == old(self)@.filter(CardKind::OfSuit(*suit).others()),
    {
        remove_all(&mut self.cards, CardKind::OfSuit(*suit));
    }

    /// Removes the first `count` cards of the given rank, or all of them where
    /// they are fewer.
    pub fn remove_rank(&mut self, rank: &Rank, count: u64)
        ensures
            final(self)@ == without_first(old(self)@, CardKind::OfRank(*rank), count as nat),
    {
        remove_up_to(&mut self.cards, CardKind::OfRank(*rank), count);
    }

    /// Removes every card of the given rank.
    pub fn remove_ranks(&mut self, rank: &Rank)
        ensures
            final(self)@ == old(self)@.filter(CardKind::OfRank(*rank).others()),
    {
        remove_all(&mut self.cards, CardKind::OfRank(*rank));
    }

    /// Removes the first `count` cards of the given suit, or all of them where
    /// they are fewer.
    pub fn remove_suit(&mut self, suit: &Suit, count: u64)
        ensures
            final(self)@ == without_first(old(self)@, CardKind::OfSuit(*suit), count as nat),
    {
        remove_up_to(&mut self.cards, CardKind::OfSuit(*suit), count);
    }

    /// Whether the deck holds enough cards for a hand of `size` cards.
    pub fn can_draw(&self, size: u8) -> (b: bool)
        ensures
            b == (size <= self@.len()),
    {
        size as usize <= self.cards.len()
    }

    /// The hand that the given choices draw: each choice takes the card at its
    /// position among the cards not drawn yet, and the last of those cards
    /// takes its place. The deck stays as it is.
    pub fn draw_with(&self, choices: &Vec<usize>) -> (hand: Hand)
        requires
            valid_choices(choices@, self@.len()),
        ensures
            hand@ == picked(self@, choices@),
    {
        let pool = self.cards.clone();
        assert(pool@ =~= self@);
        Hand { cards: pick_without_replacement(pool, choices) }
    }

    /// Draws `size` cards from different positions, chosen at random. The
    /// deck stays as it is. A card that the deck holds more than once can be
    /// drawn more than once, and no card more often than the deck holds it.
    pub fn draw_hand(&self, size: u8) -> (hand: Hand)
        requires
            size <= self@.len(),
        ensures
            exists|choices: Seq<usize>|
                valid_choices(choices, self@.len()) && choices.len() == size && hand@ == picked(
                    self@,
                    choices,
                ),
            hand@.len() == size,
            hand@.to_multiset().subset_of(self@.to_multiset()),
            size == self@.len() ==> hand@.to_multiset() == self@.to_multiset(),
    {
        let choices = random_choices(self.cards.len(), size as usize);
        proof {
            lemma_selection_splits_pool(self@, choices@);
            lemma_selection_within_pool(self@, choices@);
        }
        self.draw_with(&choices)
    }

    /// The number of cards of the given rank.
    pub fn count_rank(&self, rank: &Rank) -> (n: u64)
        ensures
            n == number_of(self@, CardKind::OfRank(*rank)),
    {
        count_kind(&self.cards, CardKind::OfRank(*rank))
    }

    /// The number of cards of the given suit.
    pub fn count_suit(&self, suit: &Suit) -> (n: u64)
        ensures
            n == number_of(self@, CardKind::OfSuit(*suit)),
    {
        count_kind(&self.cards, CardKind::OfSuit(*suit))
    }

    /// The number of cards equal to `card`.
    pub fn count_card(&self, card: &Card) -> (n: u64)
        ensures
            n == self@.to_multiset().count(*card),
    {
        let ghost same = |c: Card| c == *card;
        let mut n: u64 = 0;
        let mut i: usize = 0;
        proof {
            assert(self@.take(0) =~= Seq::<Card>::empty());
            Seq::<Card>::empty().lemma_filter_len(same);
        }
        while i < self.cards.len()
            invariant
                i <= self.cards.len(),
                n <= i,
                same == (|c: Card| c == *card),
                n == self@.take(i as int).filter(same).len(),
            decreases self.cards.len() - i,
        {
            proof {
                assert(self@.take(i + 1) =~= self@.take(i as int).push(self@[i as int]));
                self@.take(i as int).lemma_filter_push(self@[i as int], same);
            }
            if self.cards[i] == *card {
                n += 1;
            }
            i += 1;
        }
        proof {
            assert(self@.take(i as int) =~= self@);
            lemma_count_is_filter_len(self@, *card);
        }
        n
    }

    /// Puts the cards in a random order.
    pub fn shuffle(&mut self)
        ensures
            final(self)@.to_multiset() == old(self)@.to_multiset(),
            final(self)@.len() == old(self)@.len(),
    {
        shuffle_cards(&mut self.cards);
        proof {
            self@.to_multiset_ensures();
            old(self)@.to_multiset_ensures();
        }
    }

    /// The number of cards.
    pub fn size(&self) -> (n: usize)
        ensures
            n == self@.len(),
    {
        self.cards.len()
    }

    /// Sorts the cards by rank; cards of one rank stay in the order they had.
    pub fn sort_by_rank(&mut self)
        ensures
            stably_sorted(final(self)@, old(self)@, CardOrder::ByRank),
            final(self)@.to_multiset() == old(self)@.to_multiset(),
    {
        sort_cards(&mut self.cards, CardOrder::ByRank);
    }

    /// Sorts the cards by suit; cards of one suit stay in the order they had.
    pub fn sort_by_suit(&mut self)
        ensures
            stably_sorted(final(self)@, old(self)@, CardOrder::BySuit),
            final(self)@.to_multiset() == old(self)@.to_multiset(),
    {
        sort_cards(&mut self.cards, CardOrder::BySuit);
    }
}

} // verus!
