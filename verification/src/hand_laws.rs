//! Laws of the categories: what a hand must hold to satisfy them.
//!
//! - The categories do not depend on the order of the cards.
//! - A pair, two pairs, three and four of a kind and a full house are there
//!   exactly where the numbers of cards of each rank make them; five of a kind
//!   or a flush five exactly where some rank has five cards.
//! - A flush, a flush five or a straight flush is there exactly where five
//!   cards can pass for cards of one real suit.
//! - A straight takes five ranks in a row; a straight flush takes five cards
//!   that can pass for cards of one real suit with ranks in a row.
//! - A flush house takes a triple and a pair of different ranks whose cards can
//!   pass for cards of one real suit, and is a full house.
//! - No hand is a royal flush, and a hand of fewer than five cards satisfies
//!   nothing but pairs, two pairs, three and four of a kind.
use vstd::multiset::Multiset;
use vstd::prelude::*;
use vstd::seq_lib::{lemma_multiset_commutative, to_multiset_build};
use crate::card::{Card, Rank, Suit};
use crate::counting::{
    lemma_cards_of_a_rank,
    lemma_filter_len_permutation,
    lemma_number_of_add,
    lemma_number_of_bound,
    lemma_number_of_none,
    lemma_number_of_permutation,
    lemma_number_of_push,
    lemma_two_kinds_share_no_card,
    number_of,
    CardKind,
};
use crate::hand::{expand_card, expand_wilds, satisfied_categories, PokerHand};
use crate::hand_set::PokerHandSet;
use crate::house_laws::{
    lemma_house_is_suited,
    lemma_passing_is_suited,
    lemma_rank_scan_houses,
    passes,
    passing,
    suited_triple_and_pair,
};
use crate::rank_laws::{
    counts_agree,
    five_in_a_row,
    five_suited,
    groups_agree,
    in_a_row,
    lemma_house_of_groups,
    lemma_rank_scan_counts,
    lemma_rank_scan_groups,
    lemma_rank_scan_lengths,
    lemma_found_stays,
    lemma_rank_scan_runs,
    lemma_rank_scan_streaks,
    lengths_agree,
    of_a_kind,
    runs_agree,
    streaks_agree,
    suited,
    triple_and_pair,
    two_pairs,
};
use crate::rank_scan::RankScanState;
use crate::sorting::{lemma_first_key_in_order, lemma_sorted_permutation, sorted, CardOrder};
use crate::suit_laws::{
    five_alike,
    five_in_a_row_of_a_suit,
    five_of_a_suit,
    lemma_suit_scan_agrees,
    lemma_suit_scan_counts,
    lemma_suit_scan_runs,
    no_wild,
    suit_counts_agree,
    suit_in_a_row,
    suit_runs_agree,
    suits_agree,
};
use crate::suit_scan::SuitScanState;

verus! {

/// How often `c` occurs among the cards that the cards of `m` stand for: a
/// card of a real suit as often as `m` holds it or the wildcard of its rank,
/// a wildcard never, and a card without a suit as often as `m` holds it.
pub open spec fn expanded_count(m: Multiset<Card>, c: Card) -> nat {
    if c.suit == Suit::Wild {
        0
    } else if c.suit.is_real() {
        m.count(c) + m.count(Card { rank: c.rank, suit: Suit::Wild })
    } else {
        m.count(c)
    }
}

/// How often a card occurs in what stands for one card.
proof fn lemma_expand_card_count(x: Card, c: Card)
    ensures
        expand_card(x).to_multiset().count(c) == expanded_count(Multiset::singleton(x), c),
{
    broadcast use vstd::multiset::group_multiset_axioms;

    let e = Seq::<Card>::empty();
    assert(e.to_multiset() =~= Multiset::<Card>::empty()) by {
        e.to_multiset_ensures();
    }
    if x.suit == Suit::Wild {
        let c1 = Card { rank: x.rank, suit: Suit::Clubs };
        let c2 = Card { rank: x.rank, suit: Suit::Diamonds };
        let c3 = Card { rank: x.rank, suit: Suit::Hearts };
        let c4 = Card { rank: x.rank, suit: Suit::Spades };
        assert(expand_card(x) =~= e.push(c1).push(c2).push(c3).push(c4));
        to_multiset_build(e, c1);
        to_multiset_build(e.push(c1), c2);
        to_multiset_build(e.push(c1).push(c2), c3);
        to_multiset_build(e.push(c1).push(c2).push(c3), c4);
    } else {
        assert(expand_card(x) =~= e.push(x));
        to_multiset_build(e, x);
    }
}

/// How often a card occurs once the wildcards are replaced depends only on
/// how often each card occurs in the hand.
pub proof fn lemma_expand_count(cards: Seq<Card>, c: Card)
    ensures
        expand_wilds(cards).to_multiset().count(c) == expanded_count(cards.to_multiset(), c),
    decreases cards.len(),
{
    broadcast use vstd::multiset::group_multiset_axioms;

    if cards.len() == 0 {
        cards.to_multiset_ensures();
        assert(cards.to_multiset() =~= Multiset::<Card>::empty());
        assert(expand_wilds(cards) =~= cards);
    } else {
        let init = cards.drop_last();
        let x = cards.last();
        lemma_expand_count(init, c);
        lemma_expand_card_count(x, c);
        lemma_multiset_commutative(expand_wilds(init), expand_card(x));
        assert(cards =~= init.push(x));
        to_multiset_build(init, x);
    }
}

/// Two hands of the same cards, in whatever order, stand for the same cards.
pub proof fn lemma_expand_permutation(a: Seq<Card>, b: Seq<Card>)
    requires
        a.to_multiset() == b.to_multiset(),
    ensures
        expand_wilds(a).to_multiset() == expand_wilds(b).to_multiset(),
{
    assert forall|c: Card|
        expand_wilds(a).to_multiset().count(c) == expand_wilds(b).to_multiset().count(c) by {
        lemma_expand_count(a, c);
        lemma_expand_count(b, c);
    }
    assert(expand_wilds(a).to_multiset() =~= expand_wilds(b).to_multiset());
}

/// The categories of a hand do not depend on the order of its cards.
pub proof fn lemma_categories_ignore_order(a: Seq<Card>, b: Seq<Card>)
    requires
        a.to_multiset() == b.to_multiset(),
    ensures
        satisfied_categories(a) == satisfied_categories(b),
{
    lemma_expand_permutation(a, b);
    lemma_sorted_permutation(expand_wilds(a), expand_wilds(b), CardOrder::BySuitThenRank);
    lemma_sorted_permutation(a, b, CardOrder::ByRankThenSuit);
}

/// A hand without cards satisfies no category.
pub proof fn lemma_empty_hand_has_no_category()
    ensures
        satisfied_categories(Seq::empty()) == PokerHandSet::nothing(),
{
    let e = Seq::<Card>::empty();
    assert(expand_wilds(e) =~= e);
    assert(sorted(e, CardOrder::BySuitThenRank) =~= e) by {
        lemma_sorted_permutation(e, e, CardOrder::BySuitThenRank);
        e.to_multiset_ensures();
        sorted(e, CardOrder::BySuitThenRank).to_multiset_ensures();
    }
    assert(sorted(e, CardOrder::ByRankThenSuit) =~= e) by {
        lemma_sorted_permutation(e, e, CardOrder::ByRankThenSuit);
        e.to_multiset_ensures();
        sorted(e, CardOrder::ByRankThenSuit).to_multiset_ensures();
    }
    let end = RankScanState::scan(e, SuitScanState::scan(e).found);
    assert(!end.groups.has_house());
}

/// What stands for one card holds one card of each real suit where the card
/// is wild, and the card itself where not; all of its rank.
proof fn lemma_expand_card_kinds(c: Card, kind: CardKind)
    ensures
        number_of(expand_card(c), kind) == match kind {
            CardKind::OfRank(r) => if c.rank != r {
                0nat
            } else if c.suit == Suit::Wild {
                4nat
            } else {
                1nat
            },
            CardKind::OfSuit(s) => if s == Suit::Wild {
                0nat
            } else if c.suit == s || (c.suit == Suit::Wild && s.is_real()) {
                1nat
            } else {
                0nat
            },
        },
{
    let e = Seq::<Card>::empty();
    lemma_number_of_none(kind);
    if c.suit == Suit::Wild {
        let c1 = Card { rank: c.rank, suit: Suit::Clubs };
        let c2 = Card { rank: c.rank, suit: Suit::Diamonds };
        let c3 = Card { rank: c.rank, suit: Suit::Hearts };
        let c4 = Card { rank: c.rank, suit: Suit::Spades };
        assert(expand_card(c) =~= e.push(c1).push(c2).push(c3).push(c4));
        lemma_number_of_push(e, c1, kind);
        lemma_number_of_push(e.push(c1), c2, kind);
        lemma_number_of_push(e.push(c1).push(c2), c3, kind);
        lemma_number_of_push(e.push(c1).push(c2).push(c3), c4, kind);
    } else {
        assert(expand_card(c) =~= e.push(c));
        lemma_number_of_push(e, c, kind);
    }
}

/// Replacing the wildcards leaves no wildcard, and gives every real suit its
/// own cards and one card for each wildcard.
pub proof fn lemma_expand_kinds(cards: Seq<Card>)
    ensures
        no_wild(expand_wilds(cards)),
        forall|s: Suit|
            s.is_real() ==> #[trigger] number_of(expand_wilds(cards), CardKind::OfSuit(s))
                == suited(cards, s),
    decreases cards.len(),
{
    if cards.len() == 0 {
        assert(expand_wilds(cards) =~= cards);
        assert(cards =~= Seq::<Card>::empty());
        assert forall|k: CardKind| number_of(Seq::<Card>::empty(), k) == 0 by {
            lemma_number_of_none(k);
        }
    } else {
        let before = cards.drop_last();
        let c = cards.last();
        assert(cards =~= before.push(c));
        lemma_expand_kinds(before);
        assert forall|k: CardKind|
            number_of(expand_wilds(cards), k) == number_of(expand_wilds(before), k) + number_of(
                expand_card(c),
                k,
            ) by {
            lemma_number_of_add(expand_wilds(before), expand_card(c), k);
        }
        assert forall|k: CardKind| #[trigger]
            number_of(cards, k) == number_of(before, k) + if k.holds(c) {
                1nat
            } else {
                0nat
            } by {
            lemma_number_of_push(before, c, k);
        }
        lemma_expand_card_kinds(c, CardKind::OfSuit(Suit::Wild));
        assert forall|s: Suit| s.is_real() implies #[trigger] number_of(
            expand_wilds(cards),
            CardKind::OfSuit(s),
        ) == suited(cards, s) by {
            lemma_expand_card_kinds(c, CardKind::OfSuit(s));
            assert(number_of(expand_wilds(before), CardKind::OfSuit(s)) == suited(before, s));
            assert(number_of(cards, CardKind::OfSuit(s)) == number_of(before, CardKind::OfSuit(s))
                + if c.suit == s {
                1nat
            } else {
                0nat
            });
            assert(number_of(cards, CardKind::OfSuit(Suit::Wild)) == number_of(
                before,
                CardKind::OfSuit(Suit::Wild),
            ) + if c.suit == Suit::Wild {
                1nat
            } else {
                0nat
            });
        }
    }
}

/// The two passes over a hand: the states in which they end, with what each
/// is known to agree with.
proof fn lemma_passes_agree(cards: Seq<Card>)
    ensures
        ({
            let by_suit = sorted(expand_wilds(cards), CardOrder::BySuitThenRank);
            let by_rank = sorted(cards, CardOrder::ByRankThenSuit);
            let first = SuitScanState::scan(by_suit);
            let second = RankScanState::scan(by_rank, first.found);
            &&& satisfied_categories(cards) == second.finish()
            &&& suits_agree(first, by_suit)
            &&& counts_agree(second, by_rank, first.found)
            &&& lengths_agree(second, by_rank, first.found)
            &&& groups_agree(second)
            &&& runs_agree(second, by_rank, first.found)
            &&& suit_runs_agree(first, by_suit)
            &&& suit_counts_agree(first, by_suit)
            &&& streaks_agree(second, by_rank, first.found)
            &&& by_rank.len() == cards.len()
            &&& forall|k: CardKind| #[trigger] number_of(by_rank, k) == number_of(cards, k)
            &&& forall|k: CardKind| #[trigger]
                number_of(by_suit, k) == number_of(expand_wilds(cards), k)
            &&& by_suit.to_multiset() == expand_wilds(cards).to_multiset()
        }),
{
    let wide = expand_wilds(cards);
    let by_suit = sorted(wide, CardOrder::BySuitThenRank);
    let by_rank = sorted(cards, CardOrder::ByRankThenSuit);
    lemma_sorted_permutation(wide, wide, CardOrder::BySuitThenRank);
    lemma_sorted_permutation(cards, cards, CardOrder::ByRankThenSuit);
    assert forall|k: CardKind| #[trigger] number_of(by_rank, k) == number_of(cards, k) by {
        lemma_number_of_permutation(by_rank, cards, k);
    }
    assert forall|k: CardKind| #[trigger] number_of(by_suit, k) == number_of(wide, k) by {
        lemma_number_of_permutation(by_suit, wide, k);
    }
    by_rank.to_multiset_ensures();
    cards.to_multiset_ensures();
    lemma_expand_kinds(cards);
    assert(no_wild(by_suit)) by {
        assert(number_of(by_suit, CardKind::OfSuit(Suit::Wild)) == number_of(
            wide,
            CardKind::OfSuit(Suit::Wild),
        ));
    }
    lemma_suit_scan_agrees(by_suit);
    let first = SuitScanState::scan(by_suit);
    lemma_first_key_in_order(by_rank);
    lemma_rank_scan_counts(by_rank, first.found);
    lemma_rank_scan_lengths(by_rank, first.found);
    lemma_rank_scan_groups(by_rank, first.found);
    lemma_rank_scan_runs(by_rank, first.found);
    lemma_suit_scan_runs(by_suit);
    lemma_first_key_in_order(by_suit);
    lemma_suit_scan_counts(by_suit);
    lemma_rank_scan_streaks(by_rank, first.found);
}

/// The categories that go by duplicates are those that the numbers of cards of
/// each rank make: a pair where some rank has two cards, two pairs where two
/// ranks have two each, three and four of a kind where some rank has three and
/// four, a full house where one rank has three and another two, and five of a
/// kind or a flush five where some rank has five.
pub proof fn lemma_duplicates_go_by_numbers(cards: Seq<Card>)
    ensures
        satisfied_categories(cards).has(PokerHand::Pair) <==> of_a_kind(cards, 2),
        satisfied_categories(cards).has(PokerHand::TwoPair) <==> two_pairs(cards),
        satisfied_categories(cards).has(PokerHand::ThreeOfAKind) <==> of_a_kind(cards, 3),
        satisfied_categories(cards).has(PokerHand::FourOfAKind) <==> of_a_kind(cards, 4),
        satisfied_categories(cards).has(PokerHand::FullHouse) <==> triple_and_pair(cards),
        satisfied_categories(cards).has(PokerHand::FiveOfAKind) || satisfied_categories(
            cards,
        ).has(PokerHand::FlushFive) <==> of_a_kind(cards, 5),
{
    lemma_passes_agree(cards);
    let by_rank = sorted(cards, CardOrder::ByRankThenSuit);
    let by_suit = sorted(expand_wilds(cards), CardOrder::BySuitThenRank);
    lemma_same_numbers(by_rank, cards);
    lemma_triple_and_pair(cards);
    if five_alike(by_suit) {
        let c = choose|c: Card| #[trigger] by_suit.to_multiset().count(c) >= 5;
        let wild = Card { rank: c.rank, suit: Suit::Wild };
        lemma_expand_count(cards, c);
        if c.suit.is_real() {
            lemma_cards_of_a_rank(cards, c, wild);
        } else {
            lemma_cards_of_a_rank(cards, c, Card { rank: c.rank, suit: Suit::Clubs });
        }
        assert(number_of(cards, CardKind::OfRank(c.rank)) >= 5);
    }
}

/// Hands with the same number of cards of every rank make the same duplicates.
proof fn lemma_same_numbers(a: Seq<Card>, b: Seq<Card>)
    requires
        forall|k: CardKind| #[trigger] number_of(a, k) == number_of(b, k),
    ensures
        forall|n: nat| #[trigger] of_a_kind(a, n) == of_a_kind(b, n),
        two_pairs(a) == two_pairs(b),
        triple_and_pair(a) == triple_and_pair(b),
{
    assert forall|n: nat| #[trigger] of_a_kind(a, n) == of_a_kind(b, n) by {
        if of_a_kind(a, n) {
            let r = choose|r: Rank| #[trigger] number_of(a, CardKind::OfRank(r)) >= n;
            assert(number_of(b, CardKind::OfRank(r)) >= n);
        }
        if of_a_kind(b, n) {
            let r = choose|r: Rank| #[trigger] number_of(b, CardKind::OfRank(r)) >= n;
            assert(number_of(a, CardKind::OfRank(r)) >= n);
        }
    }
    lemma_same_numbers_of_two(a, b);
    lemma_same_numbers_of_two(b, a);
}

/// One half of `lemma_same_numbers`, for the duplicates of two ranks.
proof fn lemma_same_numbers_of_two(a: Seq<Card>, b: Seq<Card>)
    requires
        forall|k: CardKind| #[trigger] number_of(a, k) == number_of(b, k),
    ensures
        two_pairs(a) ==> two_pairs(b),
        triple_and_pair(a) ==> triple_and_pair(b),
{
    if two_pairs(a) {
        let (x, y) = choose|x: Rank, y: Rank|
            x != y && #[trigger] number_of(a, CardKind::OfRank(x)) >= 2 && #[trigger] number_of(
                a,
                CardKind::OfRank(y),
            ) >= 2;
        assert(number_of(b, CardKind::OfRank(x)) >= 2 && number_of(b, CardKind::OfRank(y)) >= 2);
    }
    if triple_and_pair(a) {
        let (x, y) = choose|x: Rank, y: Rank|
            x != y && #[trigger] number_of(a, CardKind::OfRank(x)) >= 3 && #[trigger] number_of(
                a,
                CardKind::OfRank(y),
            ) >= 2;
        assert(number_of(b, CardKind::OfRank(x)) >= 3 && number_of(b, CardKind::OfRank(y)) >= 2);
    }
}

/// A triple and a pair of another rank are there exactly where three of a
/// kind and two pairs are.
pub proof fn lemma_triple_and_pair(cards: Seq<Card>)
    ensures
        triple_and_pair(cards) <==> of_a_kind(cards, 3) && two_pairs(cards),
        triple_and_pair(cards) ==> cards.len() >= 5,
{
    if triple_and_pair(cards) {
        let (x, y) = choose|x: Rank, y: Rank|
            x != y && #[trigger] number_of(cards, CardKind::OfRank(x)) >= 3 && #[trigger] number_of(
                cards,
                CardKind::OfRank(y),
            ) >= 2;
        assert(of_a_kind(cards, 3));
        assert(two_pairs(cards));
        lemma_two_kinds_share_no_card(cards, CardKind::OfRank(x), CardKind::OfRank(y));
    }
    if of_a_kind(cards, 3) && two_pairs(cards) {
        let r = choose|r: Rank| #[trigger] number_of(cards, CardKind::OfRank(r)) >= 3;
        let (x, y) = choose|x: Rank, y: Rank|
            x != y && #[trigger] number_of(cards, CardKind::OfRank(x)) >= 2 && #[trigger] number_of(
                cards,
                CardKind::OfRank(y),
            ) >= 2;
        let other = if r == x {
            y
        } else {
            x
        };
        assert(r != other && number_of(cards, CardKind::OfRank(r)) >= 3 && number_of(
            cards,
            CardKind::OfRank(other),
        ) >= 2);
    }
}

/// A flush, a flush five and a straight flush each take five cards that can
/// pass for cards of one real suit, and five such cards make one of the three.
pub proof fn lemma_five_suited_make_a_flush(cards: Seq<Card>)
    ensures
        satisfied_categories(cards).has(PokerHand::Flush) ==> five_suited(cards),
        satisfied_categories(cards).has(PokerHand::FlushFive) ==> five_suited(cards),
        satisfied_categories(cards).has(PokerHand::StraightFlush) ==> five_suited(cards),
        five_suited(cards) ==> satisfied_categories(cards).has(PokerHand::Flush)
            || satisfied_categories(cards).has(PokerHand::FlushFive) || satisfied_categories(
            cards,
        ).has(PokerHand::StraightFlush),
{
    lemma_passes_agree(cards);
    lemma_expand_kinds(cards);
    let by_suit = sorted(expand_wilds(cards), CardOrder::BySuitThenRank);
    let by_rank = sorted(cards, CardOrder::ByRankThenSuit);
    if five_of_a_suit(by_suit) {
        let s = choose|s: Suit|
            s.is_real() && #[trigger] number_of(by_suit, CardKind::OfSuit(s)) >= 5;
        assert(number_of(expand_wilds(cards), CardKind::OfSuit(s)) == suited(cards, s));
        assert(suited(cards, s) >= 5);
    }
    if five_suited(by_rank) {
        let s = choose|s: Suit| s.is_real() && #[trigger] suited(by_rank, s) >= 5;
        assert(suited(cards, s) >= 5);
    }
    if five_suited(cards) {
        let s = choose|s: Suit| s.is_real() && #[trigger] suited(cards, s) >= 5;
        assert(number_of(expand_wilds(cards), CardKind::OfSuit(s)) == suited(cards, s));
        assert(number_of(by_suit, CardKind::OfSuit(s)) >= 5);
        let first = SuitScanState::scan(by_suit);
        let second = RankScanState::scan(by_rank, first.found);
        lemma_found_stays(by_rank, first.found);
        assert(first.found.has(PokerHand::Flush) ==> second.found.has(PokerHand::Flush));
        assert(first.found.has(PokerHand::FlushFive) ==> second.found.has(PokerHand::FlushFive));
        assert(first.found.has(PokerHand::StraightFlush) ==> second.found.has(
            PokerHand::StraightFlush,
        ));
    }
}

/// A straight takes five cards with ranks in a row, the ace counting low or
/// high.
pub proof fn lemma_straight_takes_five_in_a_row(cards: Seq<Card>)
    ensures
        satisfied_categories(cards).has(PokerHand::Straight) ==> five_in_a_row(cards),
{
    lemma_passes_agree(cards);
    let by_rank = sorted(cards, CardOrder::ByRankThenSuit);
    if five_in_a_row(by_rank) {
        let low = choose|low: nat| 1 <= low <= 10 && #[trigger] in_a_row(by_rank, low);
        assert(in_a_row(cards, low));
    }
}

/// Some card of the hand can pass for the card `c`: the hand holds `c`, or
/// `c` is of a real suit and the hand holds the wildcard of its rank.
pub open spec fn stands_in(cards: Seq<Card>, c: Card) -> bool {
    expanded_count(cards.to_multiset(), c) >= 1
}

/// Cards of the hand can pass for the five cards of the suit `s` whose ranks
/// are in a row from the number `low`, the number one standing for the ace.
pub open spec fn suited_in_a_row(cards: Seq<Card>, s: Suit, low: nat) -> bool {
    &&& stands_in(cards, Card { rank: Rank::from_value(low), suit: s })
    &&& stands_in(cards, Card { rank: Rank::from_value(low + 1), suit: s })
    &&& stands_in(cards, Card { rank: Rank::from_value(low + 2), suit: s })
    &&& stands_in(cards, Card { rank: Rank::from_value(low + 3), suit: s })
    &&& stands_in(cards, Card { rank: Rank::from_value(low + 4), suit: s })
}

/// A straight flush takes five cards that can pass for cards of one real suit
/// with ranks in a row, the ace counting low or high.
pub proof fn lemma_straight_flush_takes_five_suited_in_a_row(cards: Seq<Card>)
    ensures
        satisfied_categories(cards).has(PokerHand::StraightFlush) ==> exists|s: Suit, low: nat|
            s.is_real() && 1 <= low <= 10 && #[trigger] suited_in_a_row(cards, s, low),
{
    lemma_passes_agree(cards);
    let by_suit = sorted(expand_wilds(cards), CardOrder::BySuitThenRank);
    if five_in_a_row_of_a_suit(by_suit) {
        let (s, low) = choose|s: Suit, low: nat|
            s.is_real() && 1 <= low <= 10 && #[trigger] suit_in_a_row(by_suit, s, low);
        lemma_expand_count(cards, Card { rank: Rank::from_value(low), suit: s });
        lemma_expand_count(cards, Card { rank: Rank::from_value(low + 1), suit: s });
        lemma_expand_count(cards, Card { rank: Rank::from_value(low + 2), suit: s });
        lemma_expand_count(cards, Card { rank: Rank::from_value(low + 3), suit: s });
        lemma_expand_count(cards, Card { rank: Rank::from_value(low + 4), suit: s });
        assert(suited_in_a_row(cards, s, low));
    }
}

/// A flush house takes a triple of one rank and a pair of another whose cards
/// can pass for cards of one real suit; so it takes five cards that can.
pub proof fn lemma_flush_house_takes_suited_groups(cards: Seq<Card>)
    ensures
        satisfied_categories(cards).has(PokerHand::FlushHouse) ==> suited_triple_and_pair(cards),
        satisfied_categories(cards).has(PokerHand::FlushHouse) ==> five_suited(cards),
{
    lemma_passes_agree(cards);
    let by_suit = sorted(expand_wilds(cards), CardOrder::BySuitThenRank);
    let by_rank = sorted(cards, CardOrder::ByRankThenSuit);
    let second = RankScanState::scan(by_rank, SuitScanState::scan(by_suit).found);
    if second.groups.has_house() {
        lemma_sorted_permutation(cards, cards, CardOrder::ByRankThenSuit);
        lemma_rank_scan_houses(by_rank, SuitScanState::scan(by_suit).found);
        lemma_house_is_suited(second, by_rank);
        let (s, a, b) = choose|s: Suit, a: Rank, b: Rank|
            s.is_real() && a != b && #[trigger] passing(by_rank, a, s) >= 3 && #[trigger] passing(
                by_rank,
                b,
                s,
            ) >= 2;
        lemma_filter_len_permutation(by_rank, cards, passes(a, s));
        lemma_filter_len_permutation(by_rank, cards, passes(b, s));
        assert(passing(cards, a, s) >= 3 && passing(cards, b, s) >= 2);
        lemma_passing_is_suited(cards, a, b, s);
        assert(suited(cards, s) >= 5);
    }
}

/// Every flush house is a full house.
pub proof fn lemma_flush_house_is_full_house(cards: Seq<Card>)
    ensures
        satisfied_categories(cards).has(PokerHand::FlushHouse) ==> satisfied_categories(
            cards,
        ).has(PokerHand::FullHouse),
{
    lemma_passes_agree(cards);
    let by_suit = sorted(expand_wilds(cards), CardOrder::BySuitThenRank);
    let by_rank = sorted(cards, CardOrder::ByRankThenSuit);
    let second = RankScanState::scan(by_rank, SuitScanState::scan(by_suit).found);
    if second.groups.has_house() {
        lemma_house_of_groups(second);
    }
}

/// No hand is a royal flush: the category is there to be named, and the
/// straight flush holds what would be one.
pub proof fn lemma_no_royal_flush(cards: Seq<Card>)
    ensures
        !satisfied_categories(cards).has(PokerHand::RoyalFlush),
{
    lemma_passes_agree(cards);
}

/// A hand of fewer than five cards satisfies none of the categories that take
/// five cards: it can satisfy a pair, two pairs, three and four of a kind, and
/// nothing else.
pub proof fn lemma_small_hand(cards: Seq<Card>)
    requires
        cards.len() < 5,
    ensures
        !satisfied_categories(cards).has(PokerHand::Straight),
        !satisfied_categories(cards).has(PokerHand::Flush),
        !satisfied_categories(cards).has(PokerHand::FullHouse),
        !satisfied_categories(cards).has(PokerHand::StraightFlush),
        !satisfied_categories(cards).has(PokerHand::RoyalFlush),
        !satisfied_categories(cards).has(PokerHand::FlushHouse),
        !satisfied_categories(cards).has(PokerHand::FiveOfAKind),
        !satisfied_categories(cards).has(PokerHand::FlushFive),
{
    lemma_passes_agree(cards);
    lemma_expand_kinds(cards);
    lemma_duplicates_go_by_numbers(cards);
    lemma_triple_and_pair(cards);
    lemma_flush_house_is_full_house(cards);
    let by_suit = sorted(expand_wilds(cards), CardOrder::BySuitThenRank);
    if five_of_a_suit(by_suit) {
        let s = choose|s: Suit|
            s.is_real() && #[trigger] number_of(by_suit, CardKind::OfSuit(s)) >= 5;
        assert(number_of(expand_wilds(cards), CardKind::OfSuit(s)) == suited(cards, s));
        lemma_two_kinds_share_no_card(cards, CardKind::OfSuit(s), CardKind::OfSuit(Suit::Wild));
    }
    if of_a_kind(cards, 5) {
        let r = choose|r: Rank| #[trigger] number_of(cards, CardKind::OfRank(r)) >= 5;
        lemma_number_of_bound(cards, CardKind::OfRank(r));
    }
}

} // verus!
