//! What the rank-ordered pass finds, stated over the cards it has read.
use vstd::prelude::*;
use crate::card::{Card, Rank, Suit};
use crate::counting::{
    lemma_number_of_none,
    lemma_number_of_push,
    number_of,
    CardKind,
};
use crate::hand::PokerHand;
use crate::hand_set::PokerHandSet;
use crate::rank_scan::{flag_duplicates, RankScanState};
use crate::sorting::{in_order, CardOrder};
use crate::suit_set::lemma_with_has;

verus! {

/// Some rank is the rank of `k` cards or more.
pub open spec fn of_a_kind(cards: Seq<Card>, k: nat) -> bool {
    exists|r: Rank| #[trigger] number_of(cards, CardKind::OfRank(r)) >= k
}

/// Two ranks are each the rank of two cards or more.
pub open spec fn two_pairs(cards: Seq<Card>) -> bool {
    exists|a: Rank, b: Rank|
        a != b && #[trigger] number_of(cards, CardKind::OfRank(a)) >= 2 && #[trigger] number_of(
            cards,
            CardKind::OfRank(b),
        ) >= 2
}

/// One rank is the rank of three cards or more, and another of two or more.
pub open spec fn triple_and_pair(cards: Seq<Card>) -> bool {
    exists|a: Rank, b: Rank|
        a != b && #[trigger] number_of(cards, CardKind::OfRank(a)) >= 3 && #[trigger] number_of(
            cards,
            CardKind::OfRank(b),
        ) >= 2
}

/// None of the categories that go by duplicates.
pub open spec fn no_duplicates_found(found: PokerHandSet) -> bool {
    &&& !found.has(PokerHand::Pair)
    &&& !found.has(PokerHand::TwoPair)
    &&& !found.has(PokerHand::ThreeOfAKind)
    &&& !found.has(PokerHand::FourOfAKind)
    &&& !found.has(PokerHand::FiveOfAKind)
}

/// After one more card, some rank has `k` cards exactly where one had before
/// or the rank of the new card has just reached `k`.
proof fn lemma_of_a_kind_step(cards: Seq<Card>, c: Card, k: nat)
    ensures
        of_a_kind(cards.push(c), k) <==> of_a_kind(cards, k) || number_of(
            cards.push(c),
            CardKind::OfRank(c.rank),
        ) == k,
{
    let more = cards.push(c);
    assert forall|r: Rank|
        number_of(more, CardKind::OfRank(r)) == number_of(cards, CardKind::OfRank(r)) + if r
            == c.rank {
            1nat
        } else {
            0nat
        } by {
        lemma_number_of_push(cards, c, CardKind::OfRank(r));
    }
    if of_a_kind(more, k) {
        let r = choose|r: Rank| #[trigger] number_of(more, CardKind::OfRank(r)) >= k;
        if number_of(more, CardKind::OfRank(c.rank)) != k {
            assert(number_of(cards, CardKind::OfRank(r)) >= k);
        }
    }
    if of_a_kind(cards, k) {
        let r = choose|r: Rank| #[trigger] number_of(cards, CardKind::OfRank(r)) >= k;
        assert(number_of(more, CardKind::OfRank(r)) >= k);
    }
    if number_of(more, CardKind::OfRank(c.rank)) == k {
        assert(number_of(more, CardKind::OfRank(c.rank)) >= k);
    }
}

/// After one more card, two ranks have two cards each exactly where two had
/// before or the rank of the new card has just reached two while another rank
/// had two already.
proof fn lemma_two_pairs_step(cards: Seq<Card>, c: Card)
    ensures
        two_pairs(cards.push(c)) <==> two_pairs(cards) || (number_of(
            cards.push(c),
            CardKind::OfRank(c.rank),
        ) == 2 && of_a_kind(cards, 2)),
{
    let more = cards.push(c);
    assert forall|r: Rank|
        number_of(more, CardKind::OfRank(r)) == number_of(cards, CardKind::OfRank(r)) + if r
            == c.rank {
            1nat
        } else {
            0nat
        } by {
        lemma_number_of_push(cards, c, CardKind::OfRank(r));
    }
    let now = number_of(more, CardKind::OfRank(c.rank));
    if two_pairs(more) {
        let (a, b) = choose|a: Rank, b: Rank|
            a != b && #[trigger] number_of(more, CardKind::OfRank(a)) >= 2 && #[trigger] number_of(
                more,
                CardKind::OfRank(b),
            ) >= 2;
        if a != c.rank && b != c.rank {
            assert(number_of(cards, CardKind::OfRank(a)) >= 2 && number_of(
                cards,
                CardKind::OfRank(b),
            ) >= 2);
        } else {
            let other = if a == c.rank {
                b
            } else {
                a
            };
            assert(number_of(cards, CardKind::OfRank(other)) >= 2);
            if now != 2 {
                assert(number_of(cards, CardKind::OfRank(c.rank)) >= 2);
                assert(other != c.rank);
                assert(two_pairs(cards));
            }
        }
    }
    if two_pairs(cards) {
        let (a, b) = choose|a: Rank, b: Rank|
            a != b && #[trigger] number_of(cards, CardKind::OfRank(a)) >= 2 && #[trigger] number_of(
                cards,
                CardKind::OfRank(b),
            ) >= 2;
        assert(number_of(more, CardKind::OfRank(a)) >= 2 && number_of(more, CardKind::OfRank(b))
            >= 2);
    }
    if now == 2 && of_a_kind(cards, 2) {
        let r = choose|r: Rank| #[trigger] number_of(cards, CardKind::OfRank(r)) >= 2;
        assert(r != c.rank);
        assert(number_of(more, CardKind::OfRank(r)) >= 2 && number_of(
            more,
            CardKind::OfRank(c.rank),
        ) >= 2);
    }
}

/// In cards that go by rank, no card before a card of a new rank has that rank.
pub proof fn lemma_new_rank_is_new(cards: Seq<Card>)
    requires
        in_order(cards, CardOrder::ByRank),
        cards.len() >= 1,
        cards.len() >= 2 ==> cards[cards.len() - 2].rank != cards.last().rank,
    ensures
        number_of(cards.drop_last(), CardKind::OfRank(cards.last().rank)) == 0,
{
    let before = cards.drop_last();
    let kind = CardKind::OfRank(cards.last().rank);
    assert forall|j: int| 0 <= j < before.len() implies !(kind.chosen())(#[trigger] before[j]) by {
        let last = cards.len() - 1;
        assert(before[j] == cards[j]);
        assert(CardOrder::ByRank.key(cards[j]) <= CardOrder::ByRank.key(cards[last - 1]));
        assert(CardOrder::ByRank.key(cards[last - 1]) <= CardOrder::ByRank.key(cards[last]));
    }
    before.lemma_all_neg_filter_empty(kind.chosen());
}

/// What the pass knows of duplicates after reading `cards`, which go by rank:
/// its count is the number of cards of the rank read last, and it has flagged
/// the categories of duplicates that the cards read make.
pub open spec fn counts_agree(st: RankScanState, cards: Seq<Card>, start: PokerHandSet) -> bool {
    &&& st.last_rank == if cards.len() > 0 {
        cards.last().rank
    } else {
        Rank::NONE
    }
    &&& st.rank_count == number_of(cards, CardKind::OfRank(st.last_rank))
    &&& st.found.has(PokerHand::Pair) == of_a_kind(cards, 2)
    &&& st.found.has(PokerHand::TwoPair) == two_pairs(cards)
    &&& st.found.has(PokerHand::ThreeOfAKind) == of_a_kind(cards, 3)
    &&& st.found.has(PokerHand::FourOfAKind) == of_a_kind(cards, 4)
    &&& st.found.has(PokerHand::FiveOfAKind) ==> of_a_kind(cards, 5)
    &&& of_a_kind(cards, 5) ==> st.found.has(PokerHand::FiveOfAKind) || st.found.has(
        PokerHand::FlushFive,
    )
    &&& st.found.has(PokerHand::FlushFive) ==> start.has(PokerHand::FlushFive) || of_a_kind(
        cards,
        5,
    )
}

/// What one card adds to the categories of duplicates.
pub proof fn lemma_flag_duplicates(found: PokerHandSet, rank_count: nat, suit_streak: nat)
    ensures
        ({
            let after = flag_duplicates(found, rank_count, suit_streak);
            &&& after.has(PokerHand::Pair) == (found.has(PokerHand::Pair) || rank_count == 2)
            &&& after.has(PokerHand::TwoPair) == (found.has(PokerHand::TwoPair) || (rank_count == 2
                && found.has(PokerHand::Pair)))
            &&& after.has(PokerHand::ThreeOfAKind) == (found.has(PokerHand::ThreeOfAKind)
                || rank_count == 3)
            &&& after.has(PokerHand::FourOfAKind) == (found.has(PokerHand::FourOfAKind)
                || rank_count == 4)
            &&& after.has(PokerHand::FiveOfAKind) == (found.has(PokerHand::FiveOfAKind) || (
            rank_count == 5 && suit_streak < 5) || rank_count > 5)
            &&& after.has(PokerHand::FlushFive) == (found.has(PokerHand::FlushFive) || (rank_count
                == 5 && suit_streak >= 5))
            &&& after.has(PokerHand::Straight) == found.has(PokerHand::Straight)
            &&& after.has(PokerHand::Flush) == found.has(PokerHand::Flush)
            &&& after.has(PokerHand::FullHouse) == found.has(PokerHand::FullHouse)
            &&& after.has(PokerHand::StraightFlush) == found.has(PokerHand::StraightFlush)
            &&& after.has(PokerHand::RoyalFlush) == found.has(PokerHand::RoyalFlush)
            &&& after.has(PokerHand::FlushHouse) == found.has(PokerHand::FlushHouse)
        }),
{
}

/// Following the ascending run changes no count and flags nothing but a
/// straight.
pub proof fn lemma_follow_run_keeps(st: RankScanState, c: Card)
    ensures
        ({
            let after = st.follow_run(c);
            &&& after.last_rank == st.last_rank
            &&& after.rank_count == st.rank_count
            &&& after.last_suit == st.last_suit
            &&& after.suit_streak == st.suit_streak
            &&& after.wild_streak == st.wild_streak
            &&& after.group_suit == st.group_suit
            &&& after.groups == st.groups
            &&& forall|h: PokerHand|
                h != PokerHand::Straight ==> after.found.has(h) == st.found.has(h)
            &&& st.found.has(PokerHand::Straight) ==> after.found.has(PokerHand::Straight)
        }),
{
}

/// One more card keeps the pass in agreement with the cards read.
proof fn lemma_counts_step(st: RankScanState, before: Seq<Card>, c: Card, start: PokerHandSet)
    requires
        counts_agree(st, before, start),
        in_order(before.push(c), CardOrder::ByRank),
    ensures
        counts_agree(st.step(c), before.push(c), start),
{
    let cards = before.push(c);
    let counted = st.count_card(c);
    let after = counted.follow_run(c);
    lemma_follow_run_keeps(counted, c);
    lemma_flag_duplicates(st.found, counted.rank_count, counted.suit_streak);
    assert(counted.found == flag_duplicates(st.found, counted.rank_count, counted.suit_streak));
    lemma_number_of_push(before, c, CardKind::OfRank(c.rank));
    assert(cards.drop_last() =~= before);
    if c.rank != st.last_rank {
        if before.len() > 0 {
            assert(cards[cards.len() - 2] == before.last());
        }
        lemma_new_rank_is_new(cards);
    }
    assert(counted.rank_count == number_of(cards, CardKind::OfRank(c.rank)));
    lemma_of_a_kind_step(before, c, 2);
    lemma_of_a_kind_step(before, c, 3);
    lemma_of_a_kind_step(before, c, 4);
    lemma_of_a_kind_step(before, c, 5);
    lemma_two_pairs_step(before, c);
    if counted.rank_count > 5 {
        assert(number_of(cards, CardKind::OfRank(c.rank)) >= 5);
    }
}

/// The pass over cards that go by rank counts the cards of each rank and
/// flags the categories of duplicates accordingly.
pub proof fn lemma_rank_scan_counts(cards: Seq<Card>, start: PokerHandSet)
    requires
        in_order(cards, CardOrder::ByRank),
        no_duplicates_found(start),
    ensures
        counts_agree(RankScanState::scan(cards, start), cards, start),
    decreases cards.len(),
{
    if cards.len() == 0 {
        let none = Seq::<Card>::empty();
        assert(cards =~= none);
        assert forall|r: Rank| number_of(none, CardKind::OfRank(r)) == 0 by {
            lemma_number_of_none(CardKind::OfRank(r));
        }
    } else {
        let before = cards.drop_last();
        let c = cards.last();
        assert(cards =~= before.push(c));
        assert(in_order(before, CardOrder::ByRank)) by {
            assert forall|i: int, j: int| 0 <= i < j < before.len() implies CardOrder::ByRank.key(
                before[i],
            ) <= CardOrder::ByRank.key(before[j]) by {
                assert(before[i] == cards[i] && before[j] == cards[j]);
            }
        }
        lemma_rank_scan_counts(before, start);
        lemma_counts_step(RankScanState::scan(before, start), before, c, start);
    }
}

/// What the pass knows of lengths after reading `cards`: no count exceeds the
/// number of cards read, a pending low-ace straight took four cards, and a
/// straight or a flush five that the pass has flagged took five. The pass
/// flags no flush, straight flush, full house, flush house or royal flush.
pub open spec fn lengths_agree(st: RankScanState, cards: Seq<Card>, start: PokerHandSet) -> bool {
    &&& cards.len() == 0 ==> st.run_rank == Rank::NONE
    &&& st.rank_count <= cards.len()
    &&& st.straight_streak <= cards.len() || st.straight_streak == 1
    &&& st.primed ==> cards.len() >= 4
    &&& st.found.has(PokerHand::Straight) ==> start.has(PokerHand::Straight) || cards.len() >= 5
    &&& st.found.has(PokerHand::FlushFive) ==> start.has(PokerHand::FlushFive) || cards.len()
        >= 5
    &&& st.found.has(PokerHand::Flush) == start.has(PokerHand::Flush)
    &&& st.found.has(PokerHand::StraightFlush) == start.has(PokerHand::StraightFlush)
    &&& st.found.has(PokerHand::FullHouse) == start.has(PokerHand::FullHouse)
    &&& st.found.has(PokerHand::FlushHouse) == start.has(PokerHand::FlushHouse)
    &&& st.found.has(PokerHand::RoyalFlush) == start.has(PokerHand::RoyalFlush)
}

/// What following the ascending run can change.
proof fn lemma_follow_run_lengths(st: RankScanState, c: Card)
    ensures
        ({
            let after = st.follow_run(c);
            &&& after.straight_streak <= st.straight_streak + 1
            &&& st.run_rank == Rank::NONE ==> after.straight_streak <= st.straight_streak
                || after.straight_streak == 1
            &&& after.straight_streak >= 1 || after.straight_streak == st.straight_streak
            &&& after.primed ==> st.primed || after.straight_streak == 4
            &&& after.found.has(PokerHand::Straight) ==> st.found.has(PokerHand::Straight)
                || st.primed || after.straight_streak >= 5
        }),
{
}

/// One more card keeps the pass in agreement on lengths.
proof fn lemma_lengths_step(st: RankScanState, before: Seq<Card>, c: Card, start: PokerHandSet)
    requires
        lengths_agree(st, before, start),
    ensures
        lengths_agree(st.step(c), before.push(c), start),
{
    let counted = st.count_card(c);
    lemma_flag_duplicates(st.found, counted.rank_count, counted.suit_streak);
    assert(counted.found == flag_duplicates(st.found, counted.rank_count, counted.suit_streak));
    assert(counted.straight_streak == st.straight_streak && counted.run_rank == st.run_rank
        && counted.primed == st.primed);
    lemma_follow_run_keeps(counted, c);
    lemma_follow_run_lengths(counted, c);
}

/// The pass keeps every category with which it began.
pub proof fn lemma_found_stays(cards: Seq<Card>, start: PokerHandSet)
    ensures
        forall|h: PokerHand|
            start.has(h) ==> #[trigger] RankScanState::scan(cards, start).found.has(h),
    decreases cards.len(),
{
    if cards.len() > 0 {
        let before = cards.drop_last();
        lemma_found_stays(before, start);
        let st = RankScanState::scan(before, start);
        let counted = st.count_card(cards.last());
        lemma_flag_duplicates(st.found, counted.rank_count, counted.suit_streak);
        assert(counted.found == flag_duplicates(st.found, counted.rank_count, counted.suit_streak));
        lemma_follow_run_keeps(counted, cards.last());
        assert forall|h: PokerHand| start.has(h) implies #[trigger] RankScanState::scan(
            cards,
            start,
        ).found.has(h) by {
            assert(st.found.has(h));
            assert(counted.found.has(h));
        }
    }
}

/// The pass needs five cards for a straight and for a flush five, and leaves
/// the categories of the other pass as they are.
pub proof fn lemma_rank_scan_lengths(cards: Seq<Card>, start: PokerHandSet)
    ensures
        lengths_agree(RankScanState::scan(cards, start), cards, start),
    decreases cards.len(),
{
    if cards.len() > 0 {
        let before = cards.drop_last();
        assert(cards =~= before.push(cards.last()));
        lemma_rank_scan_lengths(before, start);
        lemma_lengths_step(RankScanState::scan(before, start), before, cards.last(), start);
    }
}

/// What the pass knows of flush-capable groups: a triple was met only where
/// three of a kind and the pair of the same suit were, a pair only where a
/// pair was, and pairs in two suits or in two ranks only where two pairs were.
pub open spec fn groups_agree(st: RankScanState) -> bool {
    &&& st.wild_streak <= st.suit_streak
    &&& st.wild_streak > 0 ==> st.last_suit == Suit::Wild
    &&& st.rank_count == 2 && st.suit_streak >= 2 ==> st.groups.pairs.has(st.group_suit)
    &&& forall|t: Suit| #[trigger]
        st.groups.triples.has(t) ==> st.found.has(PokerHand::ThreeOfAKind) && st.groups.pairs.has(
            t,
        )
    &&& forall|a: Suit| #[trigger] st.groups.pairs.has(a) ==> st.found.has(PokerHand::Pair)
    &&& forall|a: Suit, b: Suit|
        a != b && #[trigger] st.groups.pairs.has(a) && #[trigger] st.groups.pairs.has(b)
            ==> st.found.has(PokerHand::TwoPair)
    &&& forall|a: Suit| #[trigger]
        st.groups.repeated_pairs.has(a) ==> st.found.has(PokerHand::TwoPair)
}

/// One more card keeps the pass in agreement on flush-capable groups.
proof fn lemma_groups_step(st: RankScanState, c: Card)
    requires
        groups_agree(st),
    ensures
        groups_agree(st.step(c)),
{
    lemma_groups_counted(st, c);
    lemma_groups_followed(st.count_card(c), c);
}

/// Following the ascending run keeps the pass in agreement on groups.
proof fn lemma_groups_followed(st: RankScanState, c: Card)
    requires
        groups_agree(st),
    ensures
        groups_agree(st.follow_run(c)),
{
    lemma_follow_run_keeps(st, c);
}

/// Counting one more card keeps the pass in agreement on groups.
proof fn lemma_groups_counted(st: RankScanState, c: Card)
    requires
        groups_agree(st),
    ensures
        groups_agree(st.count_card(c)),
{
    let counted = st.count_card(c);
    lemma_flag_duplicates(st.found, counted.rank_count, counted.suit_streak);
    assert(counted.found == flag_duplicates(st.found, counted.rank_count, counted.suit_streak));
    assert(counted.groups == st.groups.noted(
        counted.rank_count,
        counted.suit_streak,
        counted.group_suit,
    ));
    let suit = counted.group_suit;
    lemma_with_has(st.groups.pairs, suit);
    lemma_with_has(st.groups.repeated_pairs, suit);
    lemma_with_has(st.groups.triples, suit);
    if counted.rank_count == 3 && counted.suit_streak >= 3 {
        assert(st.rank_count == 2 && st.suit_streak >= 2);
        assert(st.groups.pairs.has(suit));
    }
    assert forall|t: Suit| #[trigger] counted.groups.triples.has(t) implies counted.found.has(
        PokerHand::ThreeOfAKind,
    ) && counted.groups.pairs.has(t) by {
        if t != suit || !(counted.rank_count == 3 && counted.suit_streak >= 3) {
            assert(st.groups.triples.has(t));
        }
    }
    assert forall|a: Suit| #[trigger] counted.groups.pairs.has(a) implies counted.found.has(
        PokerHand::Pair,
    ) by {
        if a != suit || !(counted.rank_count == 2 && counted.suit_streak >= 2) {
            assert(st.groups.pairs.has(a));
        }
    }
    assert forall|a: Suit, b: Suit|
        a != b && #[trigger] counted.groups.pairs.has(a) && #[trigger] counted.groups.pairs.has(
            b,
        ) implies counted.found.has(PokerHand::TwoPair) by {
        if counted.rank_count == 2 && counted.suit_streak >= 2 {
            let other = if a == suit {
                b
            } else {
                a
            };
            assert(st.groups.pairs.has(other));
        } else {
            assert(st.groups.pairs.has(a) && st.groups.pairs.has(b));
        }
    }
    assert forall|a: Suit| #[trigger]
        counted.groups.repeated_pairs.has(a) implies counted.found.has(PokerHand::TwoPair) by {
        if counted.rank_count == 2 && counted.suit_streak >= 2 && st.groups.pairs.has(suit) {
        } else {
            assert(st.groups.repeated_pairs.has(a));
        }
    }
}

/// The pass takes note of flush-capable groups only where it flags the
/// categories of their duplicates.
pub proof fn lemma_rank_scan_groups(cards: Seq<Card>, start: PokerHandSet)
    ensures
        groups_agree(RankScanState::scan(cards, start)),
    decreases cards.len(),
{
    if cards.len() > 0 {
        lemma_rank_scan_groups(cards.drop_last(), start);
        lemma_groups_step(RankScanState::scan(cards.drop_last(), start), cards.last());
    }
}

/// Flush-capable groups that go together are a triple and a pair of another
/// rank: the pass has flagged three of a kind and two pairs.
pub proof fn lemma_house_of_groups(st: RankScanState)
    requires
        groups_agree(st),
        st.groups.has_house(),
    ensures
        st.found.has(PokerHand::ThreeOfAKind),
        st.found.has(PokerHand::TwoPair),
{
    let (t, p) = choose|t: Suit, p: Suit|
        st.groups.triples.has(t) && #[trigger] st.groups.pair_goes_with(t, p);
    assert(st.groups.pairs.has(t));
    if p != t {
        assert(st.groups.pairs.has(p));
    }
}

/// Some card has the rank `r`.
pub open spec fn occurs(cards: Seq<Card>, r: Rank) -> bool {
    number_of(cards, CardKind::OfRank(r)) >= 1
}

/// The five ranks in a row that begin at the number `low` all occur. The
/// number one stands for the ace, so that the row from one is the low-ace
/// straight.
pub open spec fn in_a_row(cards: Seq<Card>, low: nat) -> bool {
    &&& occurs(cards, Rank::from_value(low))
    &&& occurs(cards, Rank::from_value(low + 1))
    &&& occurs(cards, Rank::from_value(low + 2))
    &&& occurs(cards, Rank::from_value(low + 3))
    &&& occurs(cards, Rank::from_value(low + 4))
}

/// Five ranks in a row occur, from the row that begins at the ace counted low
/// to the row that ends at the ace counted high.
pub open spec fn five_in_a_row(cards: Seq<Card>) -> bool {
    exists|low: nat| 1 <= low <= 10 && #[trigger] in_a_row(cards, low)
}

/// What the pass knows of its ascending run after reading `cards`, which go by
/// rank: until a straight is flagged, the ranks of the run occur, and the run
/// began no lower than at `Two`; a straight is flagged only where five ranks
/// in a row occur.
pub open spec fn runs_agree(st: RankScanState, cards: Seq<Card>, start: PokerHandSet) -> bool {
    let top = st.run_rank.value();
    &&& st.found.has(PokerHand::Straight) ==> start.has(PokerHand::Straight) || five_in_a_row(
        cards,
    )
    &&& st.primed ==> occurs(cards, Rank::Two) && occurs(cards, Rank::Three) && occurs(
        cards,
        Rank::Four,
    ) && occurs(cards, Rank::Five)
    &&& !st.found.has(PokerHand::Straight) ==> {
        &&& st.run_rank == if cards.len() > 0 {
            cards.last().rank
        } else {
            Rank::NONE
        }
        &&& st.run_rank == Rank::NONE ==> st.straight_streak == 1
        &&& st.run_rank != Rank::NONE ==> {
            &&& top >= st.straight_streak + 1
            &&& occurs(cards, st.run_rank)
            &&& st.straight_streak >= 2 ==> occurs(cards, Rank::from_value((top - 1) as nat))
            &&& st.straight_streak >= 3 ==> occurs(cards, Rank::from_value((top - 2) as nat))
            &&& st.straight_streak >= 4 ==> occurs(cards, Rank::from_value((top - 3) as nat))
            &&& st.straight_streak >= 5 ==> occurs(cards, Rank::from_value((top - 4) as nat))
        }
    }
}

/// One more card leaves in place every rank that occurred.
proof fn lemma_more_cards_occur(cards: Seq<Card>, c: Card)
    ensures
        forall|r: Rank| occurs(cards, r) ==> occurs(cards.push(c), r),
        occurs(cards.push(c), c.rank),
        five_in_a_row(cards) ==> five_in_a_row(cards.push(c)),
{
    assert forall|r: Rank| occurs(cards, r) implies occurs(cards.push(c), r) by {
        lemma_number_of_push(cards, c, CardKind::OfRank(r));
    }
    lemma_number_of_push(cards, c, CardKind::OfRank(c.rank));
    if five_in_a_row(cards) {
        let low = choose|low: nat| 1 <= low <= 10 && #[trigger] in_a_row(cards, low);
        assert(in_a_row(cards.push(c), low));
    }
}

/// One more card keeps the pass in agreement on its ascending run.
proof fn lemma_runs_step(st: RankScanState, before: Seq<Card>, c: Card, start: PokerHandSet)
    requires
        runs_agree(st, before, start),
        in_order(before.push(c), CardOrder::ByRank),
    ensures
        runs_agree(st.step(c), before.push(c), start),
{
    let cards = before.push(c);
    let counted = st.count_card(c);
    let after = counted.follow_run(c);
    lemma_flag_duplicates(st.found, counted.rank_count, counted.suit_streak);
    assert(counted.found == flag_duplicates(st.found, counted.rank_count, counted.suit_streak));
    assert(counted.straight_streak == st.straight_streak && counted.run_rank == st.run_rank
        && counted.primed == st.primed);
    lemma_more_cards_occur(before, c);
    assert(cards.last() == c);
    if !st.found.has(PokerHand::Straight) {
        if before.len() > 0 {
            assert(cards[cards.len() - 2] == before.last());
            assert(CardOrder::ByRank.key(cards[cards.len() - 2]) <= CardOrder::ByRank.key(
                cards[cards.len() - 1],
            ));
        }
        let top = c.rank.value();
        if after.found.has(PokerHand::Straight) {
            if c.rank == Rank::Ace && st.primed {
                assert(Rank::from_value(1) == Rank::Ace);
                assert(in_a_row(cards, 1));
            } else {
                assert(after.straight_streak >= 5);
                assert(in_a_row(cards, (top - 4) as nat));
            }
        }
    }
}

/// The pass over cards that go by rank flags a straight only where five ranks
/// in a row occur.
pub proof fn lemma_rank_scan_runs(cards: Seq<Card>, start: PokerHandSet)
    requires
        in_order(cards, CardOrder::ByRank),
    ensures
        runs_agree(RankScanState::scan(cards, start), cards, start),
    decreases cards.len(),
{
    if cards.len() > 0 {
        let before = cards.drop_last();
        let c = cards.last();
        assert(cards =~= before.push(c));
        assert(in_order(before, CardOrder::ByRank)) by {
            assert forall|i: int, j: int| 0 <= i < j < before.len() implies CardOrder::ByRank.key(
                before[i],
            ) <= CardOrder::ByRank.key(before[j]) by {
                assert(before[i] == cards[i] && before[j] == cards[j]);
            }
        }
        lemma_rank_scan_runs(before, start);
        lemma_runs_step(RankScanState::scan(before, start), before, c, start);
    }
}

/// The number of cards that can pass for cards of the real suit `s`: those of
/// that suit and the wildcards.
pub open spec fn suited(cards: Seq<Card>, s: Suit) -> nat {
    number_of(cards, CardKind::OfSuit(s)) + number_of(cards, CardKind::OfSuit(Suit::Wild))
}

/// Some real suit has five cards or more that can pass for it.
pub open spec fn five_suited(cards: Seq<Card>) -> bool {
    exists|s: Suit| s.is_real() && #[trigger] suited(cards, s) >= 5
}

/// What the pass knows of suits after reading `cards`: the cards of its run
/// of cards that share a suit or are wild can all pass for one real suit, and
/// a flush five is flagged only where five cards can.
pub open spec fn streaks_agree(st: RankScanState, cards: Seq<Card>, start: PokerHandSet) -> bool {
    &&& st.last_suit == if cards.len() > 0 {
        cards.last().suit
    } else {
        Suit::NONE
    }
    &&& st.wild_streak <= number_of(cards, CardKind::OfSuit(Suit::Wild))
    &&& st.last_suit == Suit::Wild ==> st.wild_streak >= 1
    &&& st.last_suit.is_real() ==> st.suit_streak <= suited(cards, st.last_suit)
    &&& st.suit_streak >= 2 ==> exists|s: Suit|
        s.is_real() && st.suit_streak <= #[trigger] suited(cards, s)
    &&& st.found.has(PokerHand::FlushFive) ==> start.has(PokerHand::FlushFive) || five_suited(
        cards,
    )
}

/// One more card keeps the pass in agreement on suits.
proof fn lemma_streaks_step(st: RankScanState, before: Seq<Card>, c: Card, start: PokerHandSet)
    requires
        streaks_agree(st, before, start),
    ensures
        streaks_agree(st.step(c), before.push(c), start),
{
    let cards = before.push(c);
    let counted = st.count_card(c);
    lemma_flag_duplicates(st.found, counted.rank_count, counted.suit_streak);
    assert(counted.found == flag_duplicates(st.found, counted.rank_count, counted.suit_streak));
    lemma_follow_run_keeps(counted, c);
    assert(cards.last() == c);
    assert forall|k: CardKind| #[trigger]
        number_of(cards, k) == number_of(before, k) + if k.holds(c) {
            1nat
        } else {
            0nat
        } by {
        lemma_number_of_push(before, c, k);
    }
    assert forall|s: Suit| s.is_real() implies #[trigger] suited(cards, s) >= suited(before, s)
        && (c.suit == s || c.suit == Suit::Wild ==> suited(cards, s) == suited(before, s) + 1) by {
        assert(number_of(cards, CardKind::OfSuit(s)) == number_of(before, CardKind::OfSuit(s))
            + if c.suit == s {
            1nat
        } else {
            0nat
        });
        assert(number_of(cards, CardKind::OfSuit(Suit::Wild)) == number_of(
            before,
            CardKind::OfSuit(Suit::Wild),
        ) + if c.suit == Suit::Wild {
            1nat
        } else {
            0nat
        });
    }
    if counted.suit_streak >= 2 {
        if c.suit.is_real() {
            assert(counted.suit_streak <= suited(cards, c.suit));
        } else {
            assert(c.suit == Suit::Wild);
            if st.suit_streak >= 2 {
                let s = choose|s: Suit|
                    s.is_real() && st.suit_streak <= #[trigger] suited(before, s);
                assert(counted.suit_streak <= suited(cards, s));
            } else if st.last_suit.is_real() {
                assert(counted.suit_streak <= suited(cards, st.last_suit));
            } else {
                assert(st.last_suit == Suit::Wild);
                assert(suited(cards, Suit::Clubs) >= 2);
                assert(counted.suit_streak <= suited(cards, Suit::Clubs));
            }
        }
    }
    if counted.found.has(PokerHand::FlushFive) && !st.found.has(PokerHand::FlushFive) {
        let s = choose|s: Suit| s.is_real() && counted.suit_streak <= #[trigger] suited(cards, s);
        assert(suited(cards, s) >= 5);
    }
    if five_suited(before) {
        let s = choose|s: Suit| s.is_real() && #[trigger] suited(before, s) >= 5;
        assert(suited(cards, s) >= 5);
    }
}

/// The pass flags a flush five only where five cards can pass for cards of
/// one real suit.
pub proof fn lemma_rank_scan_streaks(cards: Seq<Card>, start: PokerHandSet)
    ensures
        streaks_agree(RankScanState::scan(cards, start), cards, start),
    decreases cards.len(),
{
    if cards.len() == 0 {
        lemma_number_of_none(CardKind::OfSuit(Suit::Wild));
        assert(cards =~= Seq::<Card>::empty());
    } else {
        let before = cards.drop_last();
        assert(cards =~= before.push(cards.last()));
        lemma_rank_scan_streaks(before, start);
        lemma_streaks_step(RankScanState::scan(before, start), before, cards.last(), start);
    }
}

} // verus!
