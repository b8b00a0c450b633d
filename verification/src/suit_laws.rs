//! What the suit-ordered pass finds, stated over the cards it has read.
use vstd::prelude::*;
use vstd::seq_lib::to_multiset_build;
use crate::card::{Card, Rank, Suit};
use crate::counting::{lemma_number_of_none, lemma_number_of_push, number_of, CardKind};
use crate::hand::PokerHand;
use crate::sorting::{in_order, CardOrder};
use crate::suit_scan::SuitScanState;

verus! {

/// Some real suit is the suit of five cards or more.
pub open spec fn five_of_a_suit(cards: Seq<Card>) -> bool {
    exists|s: Suit| s.is_real() && #[trigger] number_of(cards, CardKind::OfSuit(s)) >= 5
}

/// Some card occurs five times or more.
pub open spec fn five_alike(cards: Seq<Card>) -> bool {
    exists|c: Card| #[trigger] cards.to_multiset().count(c) >= 5
}

/// No card is a wildcard.
pub open spec fn no_wild(cards: Seq<Card>) -> bool {
    number_of(cards, CardKind::OfSuit(Suit::Wild)) == 0
}

/// What the pass knows after reading `cards`, none of them a wildcard: its
/// suit streak is made of cards of one real suit and holds its ascending run
/// and its equal cards, and whatever it has flagged has its cards among those
/// read.
pub open spec fn suits_agree(st: SuitScanState, cards: Seq<Card>) -> bool {
    &&& st.last_suit == if cards.len() > 0 {
        cards.last().suit
    } else {
        Suit::NONE
    }
    &&& st.last_rank == if cards.len() > 0 {
        cards.last().rank
    } else {
        Rank::NONE
    }
    &&& st.suit_streak <= number_of(cards, CardKind::OfSuit(st.last_suit))
    &&& st.suit_streak >= 2 ==> st.last_suit.is_real()
    &&& st.rank_streak <= cards.to_multiset().count(
        Card { rank: st.last_rank, suit: st.last_suit },
    )
    &&& cards.len() > 0 ==> st.straight_streak <= st.suit_streak
    &&& st.primed ==> st.suit_streak >= 4
    &&& st.found.has(PokerHand::Flush) ==> five_of_a_suit(cards)
    &&& st.found.has(PokerHand::FlushFive) ==> five_of_a_suit(cards) && five_alike(cards)
    &&& st.found.has(PokerHand::StraightFlush) ==> five_of_a_suit(cards)
    &&& !st.found.has(PokerHand::Straight)
    &&& !st.found.has(PokerHand::Pair)
    &&& !st.found.has(PokerHand::TwoPair)
    &&& !st.found.has(PokerHand::ThreeOfAKind)
    &&& !st.found.has(PokerHand::FullHouse)
    &&& !st.found.has(PokerHand::FourOfAKind)
    &&& !st.found.has(PokerHand::RoyalFlush)
    &&& !st.found.has(PokerHand::FlushHouse)
    &&& !st.found.has(PokerHand::FiveOfAKind)
}

/// What one card adds to what the pass has flagged.
proof fn lemma_suit_step_found(st: SuitScanState, c: Card)
    ensures
        ({
            let after = st.step(c);
            &&& after.found.has(PokerHand::Flush) ==> st.found.has(PokerHand::Flush)
                || after.suit_streak >= 5
            &&& after.found.has(PokerHand::FlushFive) ==> st.found.has(PokerHand::FlushFive) || (
            after.suit_streak >= 5 && after.rank_streak >= 5)
            &&& after.found.has(PokerHand::StraightFlush) ==> st.found.has(
                PokerHand::StraightFlush,
            ) || after.suit_streak >= 5 || (after.primed && c.rank == Rank::Ace)
            &&& after.found.has(PokerHand::Straight) == st.found.has(PokerHand::Straight)
            &&& after.found.has(PokerHand::Pair) == st.found.has(PokerHand::Pair)
            &&& after.found.has(PokerHand::TwoPair) == st.found.has(PokerHand::TwoPair)
            &&& after.found.has(PokerHand::ThreeOfAKind) == st.found.has(PokerHand::ThreeOfAKind)
            &&& after.found.has(PokerHand::FullHouse) == st.found.has(PokerHand::FullHouse)
            &&& after.found.has(PokerHand::FourOfAKind) == st.found.has(PokerHand::FourOfAKind)
            &&& after.found.has(PokerHand::RoyalFlush) == st.found.has(PokerHand::RoyalFlush)
            &&& after.found.has(PokerHand::FlushHouse) == st.found.has(PokerHand::FlushHouse)
            &&& after.found.has(PokerHand::FiveOfAKind) == st.found.has(PokerHand::FiveOfAKind)
        }),
{
}

/// One more card is one more of its kind, and leaves in place every five
/// cards of a suit and every five equal cards.
proof fn lemma_more_cards_keep(cards: Seq<Card>, c: Card)
    ensures
        five_of_a_suit(cards) ==> five_of_a_suit(cards.push(c)),
        five_alike(cards) ==> five_alike(cards.push(c)),
        forall|x: Card| #[trigger]
            cards.push(c).to_multiset().count(x) == cards.to_multiset().count(x) + if x == c {
                1nat
            } else {
                0nat
            },
        number_of(cards.push(c), CardKind::OfSuit(c.suit)) == number_of(
            cards,
            CardKind::OfSuit(c.suit),
        ) + 1,
{
    broadcast use vstd::multiset::group_multiset_axioms;

    to_multiset_build(cards, c);
    if five_alike(cards) {
        let x = choose|x: Card| #[trigger] cards.to_multiset().count(x) >= 5;
        assert(cards.push(c).to_multiset().count(x) >= 5);
    }
    lemma_number_of_push(cards, c, CardKind::OfSuit(c.suit));
    if five_of_a_suit(cards) {
        let s = choose|s: Suit|
            s.is_real() && #[trigger] number_of(cards, CardKind::OfSuit(s)) >= 5;
        lemma_number_of_push(cards, c, CardKind::OfSuit(s));
        assert(number_of(cards.push(c), CardKind::OfSuit(s)) >= 5);
    }
}

/// One more card keeps the pass in agreement with the cards read.
proof fn lemma_suits_step(st: SuitScanState, before: Seq<Card>, c: Card)
    requires
        suits_agree(st, before),
        c.suit != Suit::Wild,
    ensures
        suits_agree(st.step(c), before.push(c)),
{
    let cards = before.push(c);
    let after = st.step(c);
    lemma_suit_step_found(st, c);
    lemma_more_cards_keep(before, c);
    assert(cards.last() == c);
    if after.suit_streak >= 5 {
        assert(c.suit.is_real());
        assert(number_of(cards, CardKind::OfSuit(c.suit)) >= 5);
    }
    if after.rank_streak >= 5 {
        assert(cards.to_multiset().count(c) >= 5);
    }
}

/// The pass over cards without wildcards flags a flush, a flush five and a
/// straight flush only where five cards of a real suit were read, and a flush
/// five only where five equal cards were. It flags nothing else.
pub proof fn lemma_suit_scan_agrees(cards: Seq<Card>)
    requires
        no_wild(cards),
    ensures
        suits_agree(SuitScanState::scan(cards), cards),
    decreases cards.len(),
{
    if cards.len() == 0 {
        lemma_number_of_none(CardKind::OfSuit(Suit::NONE));
        assert(cards =~= Seq::<Card>::empty());
    } else {
        let before = cards.drop_last();
        let c = cards.last();
        assert(cards =~= before.push(c));
        lemma_number_of_push(before, c, CardKind::OfSuit(Suit::Wild));
        lemma_suit_scan_agrees(before);
        lemma_suits_step(SuitScanState::scan(before), before, c);
    }
}

/// The card `c` occurs.
pub open spec fn holds(cards: Seq<Card>, c: Card) -> bool {
    cards.to_multiset().count(c) >= 1
}

/// The five cards of the suit `s` whose ranks are in a row from the number
/// `low` all occur. The number one stands for the ace, so that the row from
/// one is the low-ace straight.
pub open spec fn suit_in_a_row(cards: Seq<Card>, s: Suit, low: nat) -> bool {
    &&& holds(cards, Card { rank: Rank::from_value(low), suit: s })
    &&& holds(cards, Card { rank: Rank::from_value(low + 1), suit: s })
    &&& holds(cards, Card { rank: Rank::from_value(low + 2), suit: s })
    &&& holds(cards, Card { rank: Rank::from_value(low + 3), suit: s })
    &&& holds(cards, Card { rank: Rank::from_value(low + 4), suit: s })
}

/// Five cards of one real suit with ranks in a row occur.
pub open spec fn five_in_a_row_of_a_suit(cards: Seq<Card>) -> bool {
    exists|s: Suit, low: nat|
        s.is_real() && 1 <= low <= 10 && #[trigger] suit_in_a_row(cards, s, low)
}

/// What the pass knows of its ascending run after reading `cards`, which go by
/// suit and then rank and hold no wildcard: the cards of the run occur, the
/// run began no lower than at `Two`, and a straight flush is flagged only
/// where five cards of one real suit with ranks in a row occur.
pub open spec fn suit_runs_agree(st: SuitScanState, cards: Seq<Card>) -> bool {
    let top = st.last_rank.value();
    let suit = st.last_suit;
    &&& st.found.has(PokerHand::StraightFlush) ==> five_in_a_row_of_a_suit(cards)
    &&& st.last_suit == if cards.len() > 0 {
        cards.last().suit
    } else {
        Suit::NONE
    }
    &&& st.last_rank == if cards.len() > 0 {
        cards.last().rank
    } else {
        Rank::NONE
    }
    &&& st.straight_streak >= 2 ==> suit.is_real()
    &&& st.primed ==> suit.is_real() && holds(cards, Card { rank: Rank::Two, suit }) && holds(
        cards,
        Card { rank: Rank::Three, suit },
    ) && holds(cards, Card { rank: Rank::Four, suit }) && holds(
        cards,
        Card { rank: Rank::Five, suit },
    )
    &&& st.last_rank == Rank::NONE ==> st.straight_streak == 1
    &&& st.last_rank != Rank::NONE ==> {
        &&& top >= st.straight_streak + 1
        &&& holds(cards, Card { rank: st.last_rank, suit })
        &&& st.straight_streak >= 2 ==> holds(
            cards,
            Card { rank: Rank::from_value((top - 1) as nat), suit },
        )
        &&& st.straight_streak >= 3 ==> holds(
            cards,
            Card { rank: Rank::from_value((top - 2) as nat), suit },
        )
        &&& st.straight_streak >= 4 ==> holds(
            cards,
            Card { rank: Rank::from_value((top - 3) as nat), suit },
        )
        &&& st.straight_streak >= 5 ==> holds(
            cards,
            Card { rank: Rank::from_value((top - 4) as nat), suit },
        )
    }
}

/// One more card leaves in place every card that occurred.
proof fn lemma_more_cards_hold(cards: Seq<Card>, c: Card)
    ensures
        forall|x: Card| holds(cards, x) ==> holds(cards.push(c), x),
        holds(cards.push(c), c),
        five_in_a_row_of_a_suit(cards) ==> five_in_a_row_of_a_suit(cards.push(c)),
{
    lemma_more_cards_keep(cards, c);
    if five_in_a_row_of_a_suit(cards) {
        let (s, low) = choose|s: Suit, low: nat|
            s.is_real() && 1 <= low <= 10 && #[trigger] suit_in_a_row(cards, s, low);
        assert(suit_in_a_row(cards.push(c), s, low));
    }
}

/// One more card keeps the pass in agreement on its ascending run.
proof fn lemma_suit_runs_step(st: SuitScanState, before: Seq<Card>, c: Card)
    requires
        suit_runs_agree(st, before),
        c.suit != Suit::Wild,
        in_order(before.push(c), CardOrder::BySuitThenRank),
    ensures
        suit_runs_agree(st.step(c), before.push(c)),
{
    let cards = before.push(c);
    let after = st.step(c);
    lemma_suit_step_found(st, c);
    lemma_more_cards_hold(before, c);
    assert(cards.last() == c);
    if before.len() > 0 {
        assert(cards[cards.len() - 2] == before.last());
        assert(CardOrder::BySuitThenRank.key(cards[cards.len() - 2])
            <= CardOrder::BySuitThenRank.key(cards[cards.len() - 1]));
    }
    let top = c.rank.value();
    if after.found.has(PokerHand::StraightFlush) && !st.found.has(PokerHand::StraightFlush) {
        if after.straight_streak >= 5 {
            assert(suit_in_a_row(cards, c.suit, (top - 4) as nat));
        } else {
            assert(Rank::from_value(1) == Rank::Ace);
            assert(suit_in_a_row(cards, c.suit, 1));
        }
    }
}

/// The pass over cards without wildcards that go by suit and then rank flags
/// a straight flush only where five cards of one real suit with ranks in a row
/// occur.
pub proof fn lemma_suit_scan_runs(cards: Seq<Card>)
    requires
        no_wild(cards),
        in_order(cards, CardOrder::BySuitThenRank),
    ensures
        suit_runs_agree(SuitScanState::scan(cards), cards),
    decreases cards.len(),
{
    if cards.len() > 0 {
        let before = cards.drop_last();
        let c = cards.last();
        assert(cards =~= before.push(c));
        lemma_number_of_push(before, c, CardKind::OfSuit(Suit::Wild));
        assert(in_order(before, CardOrder::BySuitThenRank)) by {
            assert forall|i: int, j: int|
                0 <= i < j < before.len() implies CardOrder::BySuitThenRank.key(before[i])
                <= CardOrder::BySuitThenRank.key(before[j]) by {
                assert(before[i] == cards[i] && before[j] == cards[j]);
            }
        }
        lemma_suit_scan_runs(before);
        lemma_suit_runs_step(SuitScanState::scan(before), before, c);
    }
}

/// A flush, a flush five or a straight flush is flagged.
pub open spec fn suit_category_found(st: SuitScanState) -> bool {
    st.found.has(PokerHand::Flush) || st.found.has(PokerHand::FlushFive) || st.found.has(
        PokerHand::StraightFlush,
    )
}

/// What the pass knows of suits after reading `cards`, which go by suit and
/// hold no wildcard: its suit streak holds every card of a real suit read
/// last, and five cards of a real suit have made it flag a category.
pub open spec fn suit_counts_agree(st: SuitScanState, cards: Seq<Card>) -> bool {
    &&& st.last_suit.is_real() ==> st.suit_streak == number_of(
        cards,
        CardKind::OfSuit(st.last_suit),
    )
    &&& five_of_a_suit(cards) ==> suit_category_found(st)
}

/// In cards that go by suit, no card before a card of a new suit has that suit.
proof fn lemma_new_suit_is_new(cards: Seq<Card>)
    requires
        in_order(cards, CardOrder::BySuit),
        cards.len() >= 1,
        cards.len() >= 2 ==> cards[cards.len() - 2].suit != cards.last().suit,
    ensures
        number_of(cards.drop_last(), CardKind::OfSuit(cards.last().suit)) == 0,
{
    let before = cards.drop_last();
    let kind = CardKind::OfSuit(cards.last().suit);
    assert forall|j: int| 0 <= j < before.len() implies !(kind.chosen())(#[trigger] before[j]) by {
        let last = cards.len() - 1;
        assert(before[j] == cards[j]);
        assert(CardOrder::BySuit.key(cards[j]) <= CardOrder::BySuit.key(cards[last - 1]));
        assert(CardOrder::BySuit.key(cards[last - 1]) <= CardOrder::BySuit.key(cards[last]));
    }
    before.lemma_all_neg_filter_empty(kind.chosen());
}

/// One more card keeps the pass in agreement on suits.
proof fn lemma_suit_counts_step(st: SuitScanState, before: Seq<Card>, c: Card)
    requires
        suits_agree(st, before),
        suit_counts_agree(st, before),
        c.suit != Suit::Wild,
        in_order(before.push(c), CardOrder::BySuit),
    ensures
        suit_counts_agree(st.step(c), before.push(c)),
{
    let cards = before.push(c);
    let after = st.step(c);
    lemma_suits_step(st, before, c);
    lemma_number_of_push(before, c, CardKind::OfSuit(c.suit));
    assert(cards.drop_last() =~= before);
    if c.suit != st.last_suit {
        if before.len() > 0 {
            assert(cards[cards.len() - 2] == before.last());
        }
        lemma_new_suit_is_new(cards);
    }
    if five_of_a_suit(cards) {
        let s = choose|s: Suit|
            s.is_real() && #[trigger] number_of(cards, CardKind::OfSuit(s)) >= 5;
        lemma_number_of_push(before, c, CardKind::OfSuit(s));
        if s == c.suit {
            assert(after.suit_streak >= 5);
            assert(after.straight_streak <= after.suit_streak);
        } else {
            assert(number_of(before, CardKind::OfSuit(s)) >= 5);
            assert(suit_category_found(st));
        }
    }
}

/// The pass over cards without wildcards that go by suit flags a flush, a
/// flush five or a straight flush wherever five cards of a real suit occur.
pub proof fn lemma_suit_scan_counts(cards: Seq<Card>)
    requires
        no_wild(cards),
        in_order(cards, CardOrder::BySuit),
    ensures
        suit_counts_agree(SuitScanState::scan(cards), cards),
    decreases cards.len(),
{
    if cards.len() == 0 {
        assert forall|s: Suit| number_of(cards, CardKind::OfSuit(s)) == 0 by {
            assert(cards =~= Seq::<Card>::empty());
            lemma_number_of_none(CardKind::OfSuit(s));
        }
    } else {
        let before = cards.drop_last();
        let c = cards.last();
        assert(cards =~= before.push(c));
        lemma_number_of_push(before, c, CardKind::OfSuit(Suit::Wild));
        assert(in_order(before, CardOrder::BySuit)) by {
            assert forall|i: int, j: int| 0 <= i < j < before.len() implies CardOrder::BySuit.key(
                before[i],
            ) <= CardOrder::BySuit.key(before[j]) by {
                assert(before[i] == cards[i] && before[j] == cards[j]);
            }
        }
        lemma_suit_scan_agrees(before);
        lemma_suit_scan_counts(before);
        lemma_suit_counts_step(SuitScanState::scan(before), before, c);
    }
}

} // verus!
