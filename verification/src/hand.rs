//! Hands and the categories they satisfy.
//!
//! A hand is classified in two passes. The first reads the cards by suit, with
//! every wildcard replaced by one card of each real suit, and finds what goes
//! by suit. The second reads the cards by rank and finds what goes by
//! duplicates and by ascending ranks.
use vstd::prelude::*;
use crate::card::{Card, Suit};
use crate::hand_set::PokerHandSet;
use crate::rank_scan::{RankScan, RankScanState};
use crate::sorting::{sort_cards, sorted, CardOrder};
use crate::suit_scan::{SuitScan, SuitScanState};

verus! {

/// The categories a hand can satisfy. They do not exclude one another: a hand
/// satisfies every category whose pattern occurs in it.
#[derive(Clone, Copy, Debug, PartialEq, Eq, Structural, Hash)]
pub enum PokerHand {
    Pair,
    TwoPair,
    ThreeOfAKind,
    Straight,
    Flush,
    FullHouse,
    FourOfAKind,
    StraightFlush,
    RoyalFlush,
    FlushHouse,
    FiveOfAKind,
    FlushFive,
}

/// A sequence of cards to classify.
#[derive(Debug, Clone)]
pub struct Hand {
    pub cards: Vec<Card>,
}

impl View for Hand {
    type V = Seq<Card>;

    /// The cards, in their order.
    open spec fn view(&self) -> Seq<Card> {
        self.cards@
    }
}

impl From<Vec<Card>> for Hand {
    /// Makes a hand of the given cards, in the given order.
    fn from(cards: Vec<Card>) -> (hand: Hand) {
        Hand { cards }
    }
}

impl vstd::std_specs::convert::FromSpecImpl<Vec<Card>> for Hand {
    open spec fn obeys_from_spec() -> bool {
        true
    }

    open spec fn from_spec(cards: Vec<Card>) -> Hand {
        Hand { cards }
    }
}

/// The cards that stand for `c` when suits are compared: a wildcard stands for
/// one card of its rank in each real suit, any other card for itself.
pub open spec fn expand_card(c: Card) -> Seq<Card> {
    if c.suit == Suit::Wild {
        seq![
            Card { rank: c.rank, suit: Suit::Clubs },
            Card { rank: c.rank, suit: Suit::Diamonds },
            Card { rank: c.rank, suit: Suit::Hearts },
            Card { rank: c.rank, suit: Suit::Spades },
        ]
    } else {
        seq![c]
    }
}

/// The cards of a hand with every wildcard replaced by what it stands for.
pub open spec fn expand_wilds(cards: Seq<Card>) -> Seq<Card>
    decreases cards.len(),
{
    if cards.len() == 0 {
        Seq::empty()
    } else {
        expand_wilds(cards.drop_last()) + expand_card(cards.last())
    }
}

/// The categories that a hand satisfies: what the rank-ordered pass makes of
/// the cards laid out by rank and then suit, on top of what the suit-ordered
/// pass finds in the cards laid out by suit and then rank with the wildcards
/// replaced.
pub open spec fn satisfied_categories(cards: Seq<Card>) -> PokerHandSet {
    let by_suit = sorted(expand_wilds(cards), CardOrder::BySuitThenRank);
    let by_rank = sorted(cards, CardOrder::ByRankThenSuit);
    RankScanState::scan(by_rank, SuitScanState::scan(by_suit).found).finish()
}

/// Replacing the wildcards gives at most four cards for one.
pub proof fn lemma_expand_len(cards: Seq<Card>)
    ensures
        cards.len() <= expand_wilds(cards).len() <= 4 * cards.len(),
    decreases cards.len(),
{
    if cards.len() > 0 {
        lemma_expand_len(cards.drop_last());
    }
}

/// Makes the hand in which every wildcard of `cards` is replaced by one card
/// of its rank in each of the four real suits, the other cards staying where
/// they are. The cards must be few enough for a vector to hold four for each.
pub fn create_hand_with_subbed_wilds(cards: &Vec<Card>) -> (hand: Hand)
    requires
        cards.len() <= usize::MAX / 4,
    ensures
        hand@ == expand_wilds(cards@),
{
    let mut new_cards: Vec<Card> = Vec::new();
    let mut i: usize = 0;
    assert(cards@.take(0) =~= Seq::<Card>::empty());
    while i < cards.len()
        invariant
            i <= cards.len(),
            cards.len() <= usize::MAX / 4,
            new_cards@ == expand_wilds(cards@.take(i as int)),
        decreases cards.len() - i,
    {
        let card = cards[i];
        proof {
            assert(cards@.take(i + 1).drop_last() =~= cards@.take(i as int));
            lemma_expand_len(cards@.take(i as int));
        }
        let ghost before = new_cards@;
        if card.suit == Suit::Wild {
            new_cards.push(Card { rank: card.rank, suit: Suit::Clubs });
            new_cards.push(Card { rank: card.rank, suit: Suit::Diamonds });
            new_cards.push(Card { rank: card.rank, suit: Suit::Hearts });
            new_cards.push(Card { rank: card.rank, suit: Suit::Spades });
        } else {
            new_cards.push(card);
        }
        assert(new_cards@ =~= before + expand_card(card));
        i += 1;
    }
    assert(cards@.take(i as int) =~= cards@);
    Hand { cards: new_cards }
}

impl Hand {
    /// Finds the categories that the hand satisfies, and leaves the cards
    /// sorted by rank and, within a rank, by suit. The hand must be short
    /// enough for a vector to hold four cards for each of its cards.
    pub fn evaluate_poker_hands(&mut self) -> (found: PokerHandSet)
        requires
            old(self).cards.len() <= usize::MAX / 4,
        ensures
            found == satisfied_categories(old(self)@),
            final(self)@ == sorted(old(self)@, CardOrder::ByRankThenSuit),
            final(self)@.to_multiset() == old(self)@.to_multiset(),
    {
        let mut expanded = create_hand_with_subbed_wilds(&self.cards);
        sort_cards(&mut expanded.cards, CardOrder::BySuitThenRank);
        let by_suit = SuitScan::scan(&expanded.cards);
        sort_cards(&mut self.cards, CardOrder::ByRankThenSuit);
        let by_rank = RankScan::scan(&self.cards, by_suit.found);
        by_rank.finish()
    }
}

} // verus!
