//! What a flush house takes: a triple and a pair of different ranks whose
//! cards can pass for cards of one real suit.
use vstd::prelude::*;
use crate::card::{Card, Rank, Suit};
use crate::counting::{lemma_number_of_push, number_of, CardKind};
use crate::hand_set::PokerHandSet;
use crate::rank_laws::{lemma_follow_run_keeps, lemma_new_rank_is_new};
use crate::rank_scan::RankScanState;
use crate::sorting::{in_order, lemma_first_key_in_order, CardOrder};
use crate::suit_set::lemma_with_has;

verus! {

/// The cards of rank `r` and of suit `s`, and the wildcards of rank `r`.
pub open spec fn passes(r: Rank, s: Suit) -> spec_fn(Card) -> bool {
    |c: Card| c.rank == r && (c.suit == s || c.suit == Suit::Wild)
}

/// The number of cards of rank `r` that can pass for cards of suit `s`; with
/// `Wild` for `s`, the number of wildcards of rank `r`.
pub open spec fn passing(cards: Seq<Card>, r: Rank, s: Suit) -> nat {
    cards.filter(passes(r, s)).len()
}

/// A triple of one rank and a pair of another can pass for cards of one real
/// suit.
pub open spec fn suited_triple_and_pair(cards: Seq<Card>) -> bool {
    exists|s: Suit, a: Rank, b: Rank|
        s.is_real() && a != b && #[trigger] passing(cards, a, s) >= 3 && #[trigger] passing(
            cards,
            b,
            s,
        ) >= 2
}

/// The suit of the first card of rank `r`; `NONE` where there is no such card.
pub open spec fn first_suit(cards: Seq<Card>, r: Rank) -> Suit
    decreases cards.len(),
{
    if cards.len() == 0 {
        Suit::NONE
    } else if number_of(cards.drop_last(), CardKind::OfRank(r)) > 0 {
        first_suit(cards.drop_last(), r)
    } else if cards.last().rank == r {
        cards.last().suit
    } else {
        Suit::NONE
    }
}

/// A group of suit `x` and of `n` cards is among the cards: some rank whose
/// first card has the suit `x` has `n` cards that can pass for that suit.
pub open spec fn has_group(cards: Seq<Card>, x: Suit, n: nat) -> bool {
    exists|r: Rank| first_suit(cards, r) == x && #[trigger] passing(cards, r, x) >= n
}

/// Two groups of suit `x` and of two cards each are among the cards.
pub open spec fn has_two_pairs_of(cards: Seq<Card>, x: Suit) -> bool {
    exists|a: Rank, b: Rank|
        a != b && first_suit(cards, a) == x && first_suit(cards, b) == x && #[trigger] passing(
            cards,
            a,
            x,
        ) >= 2 && #[trigger] passing(cards, b, x) >= 2
}

/// What the pass knows of the rank at hand after reading `cards`, which go by
/// rank and then suit: the cards of that rank that its run holds can pass for
/// the suit of the first of them.
pub open spec fn group_agrees(st: RankScanState, cards: Seq<Card>) -> bool {
    let rank = st.last_rank;
    let suit = st.group_suit;
    cards.len() > 0 ==> {
        &&& rank == cards.last().rank
        &&& st.last_suit == cards.last().suit
        &&& st.rank_count == number_of(cards, CardKind::OfRank(rank))
        &&& st.rank_count >= 1
        &&& st.suit_streak >= 1
        &&& st.rank_count == 1 ==> st.last_suit == suit
        &&& suit == first_suit(cards, rank)
        &&& st.suit_streak >= st.rank_count ==> {
            &&& passing(cards, rank, suit) >= st.rank_count
            &&& st.last_suit == suit || st.last_suit == Suit::Wild
            &&& st.rank_count >= 2 ==> suit != Suit::NONE
        }
    }
}

/// Every group that the pass has taken note of is among the cards.
pub open spec fn groups_held(st: RankScanState, cards: Seq<Card>) -> bool {
    &&& st.groups.pairs.has(Suit::NONE) == false
    &&& st.groups.triples.has(Suit::NONE) == false
    &&& forall|x: Suit| #[trigger] st.groups.pairs.has(x) ==> has_group(cards, x, 2)
    &&& forall|x: Suit| #[trigger] st.groups.triples.has(x) ==> has_group(cards, x, 3)
    &&& forall|x: Suit| #[trigger] st.groups.repeated_pairs.has(x) ==> has_two_pairs_of(cards, x)
}

/// What the pass knows of its groups after reading `cards`, which go by rank
/// and then suit.
pub open spec fn houses_agree(st: RankScanState, cards: Seq<Card>) -> bool {
    group_agrees(st, cards) && groups_held(st, cards)
}

/// What one more card changes in the numbers of passing cards and in the
/// first suits.
proof fn lemma_more_cards_pass(cards: Seq<Card>, c: Card)
    ensures
        forall|r: Rank, s: Suit| #[trigger]
            passing(cards.push(c), r, s) == passing(cards, r, s) + if c.rank == r && (c.suit == s
                || c.suit == Suit::Wild) {
                1nat
            } else {
                0nat
            },
        forall|r: Rank| #[trigger]
            first_suit(cards.push(c), r) == if number_of(cards, CardKind::OfRank(r)) > 0 {
                first_suit(cards, r)
            } else if c.rank == r {
                c.suit
            } else {
                Suit::NONE
            },
        forall|r: Rank, s: Suit| #[trigger]
            passing(cards, r, s) <= number_of(cards, CardKind::OfRank(r)),
        forall|x: Suit, n: nat|
            n >= 1 && #[trigger] has_group(cards, x, n) ==> has_group(cards.push(c), x, n),
        forall|x: Suit| #[trigger]
            has_two_pairs_of(cards, x) ==> has_two_pairs_of(cards.push(c), x),
{
    let more = cards.push(c);
    assert(more.drop_last() =~= cards);
    assert forall|r: Rank, s: Suit| #[trigger]
        passing(more, r, s) == passing(cards, r, s) + if c.rank == r && (c.suit == s || c.suit
            == Suit::Wild) {
            1nat
        } else {
            0nat
        } by {
        cards.lemma_filter_push(c, passes(r, s));
    }
    assert forall|r: Rank, s: Suit| #[trigger]
        passing(cards, r, s) <= number_of(cards, CardKind::OfRank(r)) by {
        lemma_passing_bound(cards, r, s);
    }
    assert forall|x: Suit, n: nat| n >= 1 && #[trigger] has_group(cards, x, n) implies has_group(
        more,
        x,
        n,
    ) by {
        let r = choose|r: Rank| first_suit(cards, r) == x && #[trigger] passing(cards, r, x) >= n;
        assert(passing(cards, r, x) <= number_of(cards, CardKind::OfRank(r)));
        assert(first_suit(more, r) == x && passing(more, r, x) >= n);
    }
    assert forall|x: Suit| #[trigger] has_two_pairs_of(cards, x) implies has_two_pairs_of(
        more,
        x,
    ) by {
        let (a, b) = choose|a: Rank, b: Rank|
            a != b && first_suit(cards, a) == x && first_suit(cards, b) == x && #[trigger] passing(
                cards,
                a,
                x,
            ) >= 2 && #[trigger] passing(cards, b, x) >= 2;
        assert(passing(cards, a, x) <= number_of(cards, CardKind::OfRank(a)));
        assert(passing(cards, b, x) <= number_of(cards, CardKind::OfRank(b)));
        assert(first_suit(more, a) == x && first_suit(more, b) == x);
        assert(passing(more, a, x) >= 2 && passing(more, b, x) >= 2);
    }
}

/// The cards of a rank that can pass for a suit are at most the cards of that
/// rank.
proof fn lemma_passing_bound(cards: Seq<Card>, r: Rank, s: Suit)
    ensures
        passing(cards, r, s) <= number_of(cards, CardKind::OfRank(r)),
    decreases cards.len(),
{
    if cards.len() == 0 {
        cards.lemma_filter_len(passes(r, s));
        cards.lemma_filter_len(CardKind::OfRank(r).chosen());
    } else {
        let rest = cards.drop_last();
        assert(cards =~= rest.push(cards.last()));
        lemma_passing_bound(rest, r, s);
        rest.lemma_filter_push(cards.last(), passes(r, s));
        lemma_number_of_push(rest, cards.last(), CardKind::OfRank(r));
    }
}

/// Counting one more card keeps the pass in agreement on the rank at hand.
proof fn lemma_group_counted(st: RankScanState, before: Seq<Card>, c: Card)
    requires
        group_agrees(st, before),
        st == RankScanState::start(st.found) || before.len() > 0,
        in_order(before.push(c), CardOrder::ByRankThenSuit),
    ensures
        group_agrees(st.count_card(c), before.push(c)),
{
    let cards = before.push(c);
    let counted = st.count_card(c);
    lemma_more_cards_pass(before, c);
    lemma_number_of_push(before, c, CardKind::OfRank(c.rank));
    assert(cards.drop_last() =~= before);
    assert(cards.last() == c);
    lemma_first_key_in_order(cards);
    if before.len() > 0 {
        assert(cards[cards.len() - 2] == before.last());
        assert(CardOrder::ByRankThenSuit.key(cards[cards.len() - 2])
            <= CardOrder::ByRankThenSuit.key(cards[cards.len() - 1]));
        if c.rank != st.last_rank {
            lemma_new_rank_is_new(cards);
        }
    }
    assert(counted.rank_count == number_of(cards, CardKind::OfRank(c.rank)));
    assert(counted.group_suit == first_suit(cards, c.rank));
    if counted.suit_streak >= counted.rank_count {
        assert(passing(cards, c.rank, counted.group_suit) >= counted.rank_count);
    }
}

/// Counting one more card leaves every group that the pass has taken note of
/// among the cards.
proof fn lemma_groups_held(st: RankScanState, before: Seq<Card>, c: Card)
    requires
        houses_agree(st, before),
        group_agrees(st.count_card(c), before.push(c)),
        st == RankScanState::start(st.found) || before.len() > 0,
    ensures
        groups_held(st.count_card(c), before.push(c)),
{
    let cards = before.push(c);
    let counted = st.count_card(c);
    lemma_more_cards_pass(before, c);
    let suit = counted.group_suit;
    let rank = c.rank;
    assert(cards.last() == c);
    assert(counted.groups == st.groups.noted(counted.rank_count, counted.suit_streak, suit));
    lemma_with_has(st.groups.pairs, suit);
    lemma_with_has(st.groups.repeated_pairs, suit);
    lemma_with_has(st.groups.triples, suit);
    let pair = counted.rank_count == 2 && counted.suit_streak >= 2;
    let triple = counted.rank_count == 3 && counted.suit_streak >= 3;
    assert(st.groups.pairs.with(suit).has(Suit::NONE) == (st.groups.pairs.has(Suit::NONE) || suit
        == Suit::NONE));
    assert(st.groups.triples.with(suit).has(Suit::NONE) == (st.groups.triples.has(Suit::NONE)
        || suit == Suit::NONE));
    if pair {
        assert(first_suit(cards, rank) == suit && passing(cards, rank, suit) >= 2);
        assert(has_group(cards, suit, 2));
        if st.groups.pairs.has(suit) {
            let r = choose|r: Rank|
                first_suit(before, r) == suit && #[trigger] passing(before, r, suit) >= 2;
            assert(passing(before, r, suit) <= number_of(before, CardKind::OfRank(r)));
            assert(r != rank);
            assert(first_suit(cards, r) == suit && passing(cards, r, suit) >= 2);
            assert(has_two_pairs_of(cards, suit));
        }
    }
    if triple {
        assert(first_suit(cards, rank) == suit && passing(cards, rank, suit) >= 3);
        assert(has_group(cards, suit, 3));
    }
    assert forall|x: Suit| #[trigger] counted.groups.pairs.has(x) implies has_group(cards, x, 2) by {
        if !(pair && x == suit) {
            assert(st.groups.pairs.has(x));
            assert(has_group(before, x, 2));
        }
    }
    assert forall|x: Suit| #[trigger] counted.groups.triples.has(x) implies has_group(
        cards,
        x,
        3,
    ) by {
        if !(triple && x == suit) {
            assert(st.groups.triples.has(x));
            assert(has_group(before, x, 3));
        }
    }
    assert forall|x: Suit| #[trigger] counted.groups.repeated_pairs.has(x) implies has_two_pairs_of(
        cards,
        x,
    ) by {
        if !(pair && x == suit && st.groups.pairs.has(suit)) {
            assert(st.groups.repeated_pairs.has(x));
            assert(has_two_pairs_of(before, x));
        }
    }
}

/// One more card keeps the pass in agreement on its groups.
proof fn lemma_houses_step(st: RankScanState, before: Seq<Card>, c: Card)
    requires
        houses_agree(st, before),
        st == RankScanState::start(st.found) || before.len() > 0,
        in_order(before.push(c), CardOrder::ByRankThenSuit),
    ensures
        houses_agree(st.step(c), before.push(c)),
{
    lemma_group_counted(st, before, c);
    lemma_groups_held(st, before, c);
    lemma_follow_run_keeps(st.count_card(c), c);
}

/// The pass over cards that go by rank and then suit takes note of a group
/// only where the cards hold it.
pub proof fn lemma_rank_scan_houses(cards: Seq<Card>, start: PokerHandSet)
    requires
        in_order(cards, CardOrder::ByRankThenSuit),
    ensures
        houses_agree(RankScanState::scan(cards, start), cards),
        cards.len() == 0 ==> RankScanState::scan(cards, start) == RankScanState::start(start),
    decreases cards.len(),
{
    if cards.len() > 0 {
        let before = cards.drop_last();
        let c = cards.last();
        assert(cards =~= before.push(c));
        assert(in_order(before, CardOrder::ByRankThenSuit)) by {
            assert forall|i: int, j: int|
                0 <= i < j < before.len() implies CardOrder::ByRankThenSuit.key(before[i])
                <= CardOrder::ByRankThenSuit.key(before[j]) by {
                assert(before[i] == cards[i] && before[j] == cards[j]);
            }
        }
        lemma_rank_scan_houses(before, start);
        let st = RankScanState::scan(before, start);
        if before.len() == 0 {
            assert(st == RankScanState::start(st.found));
        }
        lemma_houses_step(st, before, c);
    }
}

/// Groups that go together are a triple and a pair of different ranks whose
/// cards can pass for cards of one real suit.
pub proof fn lemma_house_is_suited(st: RankScanState, cards: Seq<Card>)
    requires
        houses_agree(st, cards),
        st.groups.has_house(),
    ensures
        suited_triple_and_pair(cards),
{
    let (t, p) = choose|t: Suit, p: Suit|
        st.groups.triples.has(t) && #[trigger] st.groups.pair_goes_with(t, p);
    assert(has_group(cards, t, 3));
    let a = choose|r: Rank| first_suit(cards, r) == t && #[trigger] passing(cards, r, t) >= 3;
    let s = if t.is_real() {
        t
    } else if p.is_real() {
        p
    } else {
        Suit::Clubs
    };
    assert(t == Suit::Wild || t == s);
    lemma_wild_passes(cards, a, s);
    if p == t {
        assert(has_two_pairs_of(cards, t));
        let (x, y) = choose|x: Rank, y: Rank|
            x != y && first_suit(cards, x) == t && first_suit(cards, y) == t && #[trigger] passing(
                cards,
                x,
                t,
            ) >= 2 && #[trigger] passing(cards, y, t) >= 2;
        let b = if x == a {
            y
        } else {
            x
        };
        lemma_wild_passes(cards, b, s);
        assert(a != b && passing(cards, a, s) >= 3 && passing(cards, b, s) >= 2);
    } else {
        assert(has_group(cards, p, 2));
        let b = choose|r: Rank| first_suit(cards, r) == p && #[trigger] passing(cards, r, p) >= 2;
        assert(p == Suit::Wild || p == s);
        lemma_wild_passes(cards, b, s);
        assert(a != b && passing(cards, a, s) >= 3 && passing(cards, b, s) >= 2);
    }
}

/// The wildcards of a rank can pass for cards of any suit.
proof fn lemma_wild_passes(cards: Seq<Card>, r: Rank, s: Suit)
    ensures
        passing(cards, r, Suit::Wild) <= passing(cards, r, s),
    decreases cards.len(),
{
    if cards.len() == 0 {
        cards.lemma_filter_len(passes(r, s));
        cards.lemma_filter_len(passes(r, Suit::Wild));
    } else {
        let rest = cards.drop_last();
        assert(cards =~= rest.push(cards.last()));
        lemma_wild_passes(rest, r, s);
        rest.lemma_filter_push(cards.last(), passes(r, s));
        rest.lemma_filter_push(cards.last(), passes(r, Suit::Wild));
    }
}

/// The cards of two ranks that can pass for cards of a real suit are among
/// the cards that can: those of the suit and the wildcards.
pub proof fn lemma_passing_is_suited(cards: Seq<Card>, a: Rank, b: Rank, s: Suit)
    requires
        a != b,
        s != Suit::Wild,
    ensures
        passing(cards, a, s) + passing(cards, b, s) <= number_of(cards, CardKind::OfSuit(s))
            + number_of(cards, CardKind::OfSuit(Suit::Wild)),
    decreases cards.len(),
{
    if cards.len() == 0 {
        cards.lemma_filter_len(passes(a, s));
        cards.lemma_filter_len(passes(b, s));
    } else {
        let rest = cards.drop_last();
        assert(cards =~= rest.push(cards.last()));
        lemma_passing_is_suited(rest, a, b, s);
        rest.lemma_filter_push(cards.last(), passes(a, s));
        rest.lemma_filter_push(cards.last(), passes(b, s));
        lemma_number_of_push(rest, cards.last(), CardKind::OfSuit(s));
        lemma_number_of_push(rest, cards.last(), CardKind::OfSuit(Suit::Wild));
    }
}

} // verus!
