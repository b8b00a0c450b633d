//! Stable sorting of cards by rank, by suit, or by both.
use vstd::prelude::*;
use vstd::relations::{sorted_by, total_ordering};
use vstd::seq_lib::{lemma_sorted_unique, to_multiset_build, to_multiset_insert};
use crate::card::Card;

verus! {

/// The orders in which cards are laid out. Ranks go `NONE, Two, .., Ace` and
/// suits go `NONE, Clubs, Diamonds, Hearts, Spades, Wild`.
#[derive(Clone, Copy, Debug, PartialEq, Eq, Structural)]
pub enum CardOrder {
    /// By rank alone.
    ByRank,
    /// By suit alone.
    BySuit,
    /// By rank, and by suit among cards of one rank.
    ByRankThenSuit,
    /// By suit, and by rank among cards of one suit.
    BySuitThenRank,
}

impl CardOrder {
    /// The number by which the order places a card: cards go by ascending key.
    pub open spec fn key(self, c: Card) -> nat {
        match self {
            CardOrder::ByRank => c.rank.value(),
            CardOrder::BySuit => c.suit.position(),
            CardOrder::ByRankThenSuit => c.rank.value() * 6 + c.suit.position(),
            CardOrder::BySuitThenRank => c.suit.position() * 15 + c.rank.value(),
        }
    }

    /// The order tells any two different cards apart.
    pub open spec fn is_total(self) -> bool {
        self == CardOrder::ByRankThenSuit || self == CardOrder::BySuitThenRank
    }

    /// The relation "comes no later than".
    pub open spec fn leq(self) -> spec_fn(Card, Card) -> bool {
        |a: Card, b: Card| self.key(a) <= self.key(b)
    }

    /// The cards that the order places at key `k`.
    pub open spec fn has_key(self, k: nat) -> spec_fn(Card) -> bool {
        |c: Card| self.key(c) == k
    }

    /// Computes the key of a card.
    pub fn key_of(&self, c: &Card) -> (k: usize)
        ensures
            k == self.key(*c),
    {
        match self {
            CardOrder::ByRank => c.rank.to_int(),
            CardOrder::BySuit => c.suit.index(),
            CardOrder::ByRankThenSuit => c.rank.to_int() * 6 + c.suit.index(),
            CardOrder::BySuitThenRank => c.suit.index() * 15 + c.rank.to_int(),
        }
    }
}

/// The cards of `s` go by ascending key.
pub open spec fn in_order(s: Seq<Card>, order: CardOrder) -> bool {
    forall|i: int, j: int|
        #![trigger s[i], s[j]]
        0 <= i < j < s.len() ==> order.key(s[i]) <= order.key(s[j])
}

/// `out` is `inp` sorted stably: it goes by ascending key, and for every key
/// the cards with that key are those of `inp`, in the order they had there.
pub open spec fn stably_sorted(out: Seq<Card>, inp: Seq<Card>, order: CardOrder) -> bool {
    &&& in_order(out, order)
    &&& forall|k: nat| #[trigger] out.filter(order.has_key(k)) == inp.filter(order.has_key(k))
}

/// The cards of `s` laid out in a total order.
pub open spec fn sorted(s: Seq<Card>, order: CardOrder) -> Seq<Card>
    recommends
        order.is_total(),
{
    s.sort_by(order.leq())
}

/// An order that tells any two cards apart is a total order on cards.
pub proof fn lemma_total_order(order: CardOrder)
    requires
        order.is_total(),
    ensures
        total_ordering(order.leq()),
{
    let leq = order.leq();
    assert forall|a: Card, b: Card| #[trigger] leq(a, b) && leq(b, a) implies a == b by {
        assert(order.key(a) == order.key(b));
        assert(a.suit.position() < 6 && b.suit.position() < 6);
        assert(a.rank.value() < 15 && b.rank.value() < 15);
        assert(a.rank.value() == b.rank.value());
        assert(a.suit.position() == b.suit.position());
    }
}

/// In a total order, a sequence in order with the cards of `inp` is `inp` sorted.
pub proof fn lemma_sorted_is_unique(out: Seq<Card>, inp: Seq<Card>, order: CardOrder)
    requires
        order.is_total(),
        in_order(out, order),
        out.to_multiset() == inp.to_multiset(),
    ensures
        out == sorted(inp, order),
{
    lemma_total_order(order);
    inp.lemma_sort_by_ensures(order.leq());
    assert(sorted_by(out, order.leq()));
    lemma_sorted_unique(out, sorted(inp, order), order.leq());
}

/// Sorting in a total order keeps the cards, puts them in order, and forgets
/// the order in which they came.
pub proof fn lemma_sorted_permutation(a: Seq<Card>, b: Seq<Card>, order: CardOrder)
    requires
        order.is_total(),
        a.to_multiset() == b.to_multiset(),
    ensures
        sorted(a, order) == sorted(b, order),
        sorted(a, order).to_multiset() == a.to_multiset(),
        in_order(sorted(a, order), order),
{
    lemma_total_order(order);
    a.lemma_sort_by_ensures(order.leq());
    b.lemma_sort_by_ensures(order.leq());
    lemma_sorted_unique(sorted(a, order), sorted(b, order), order.leq());
    let out = sorted(a, order);
    assert forall|i: int, j: int| 0 <= i < j < out.len() implies order.key(out[i]) <= order.key(
        out[j],
    ) by {
        assert((order.leq())(out[i], out[j]));
    }
}

/// Cards that go by rank and then suit go by rank, and cards that go by suit
/// and then rank go by suit.
pub proof fn lemma_first_key_in_order(s: Seq<Card>)
    ensures
        in_order(s, CardOrder::ByRankThenSuit) ==> in_order(s, CardOrder::ByRank),
        in_order(s, CardOrder::BySuitThenRank) ==> in_order(s, CardOrder::BySuit),
{
    if in_order(s, CardOrder::ByRankThenSuit) {
        assert forall|i: int, j: int| 0 <= i < j < s.len() implies CardOrder::ByRank.key(s[i])
            <= CardOrder::ByRank.key(s[j]) by {
            assert(CardOrder::ByRankThenSuit.key(s[i]) <= CardOrder::ByRankThenSuit.key(s[j]));
            assert(s[i].suit.position() < 6 && s[j].suit.position() < 6);
        }
    }
    if in_order(s, CardOrder::BySuitThenRank) {
        assert forall|i: int, j: int| 0 <= i < j < s.len() implies CardOrder::BySuit.key(s[i])
            <= CardOrder::BySuit.key(s[j]) by {
            assert(CardOrder::BySuitThenRank.key(s[i]) <= CardOrder::BySuitThenRank.key(s[j]));
            assert(s[i].rank.value() < 15 && s[j].rank.value() < 15);
        }
    }
}

/// Putting `c` behind the last card of `out` that comes no later than `c`
/// keeps `out` in order, and keeps, key by key, the order in which cards came.
proof fn lemma_insert_keeps_stable(
    out: Seq<Card>,
    seen: Seq<Card>,
    c: Card,
    pos: int,
    order: CardOrder,
)
    requires
        0 <= pos <= out.len(),
        in_order(out, order),
        forall|j: int| 0 <= j < pos ==> order.key(#[trigger] out[j]) <= order.key(c),
        forall|j: int| pos <= j < out.len() ==> order.key(#[trigger] out[j]) > order.key(c),
        forall|k: nat| #[trigger] out.filter(order.has_key(k)) == seen.filter(order.has_key(k)),
    ensures
        in_order(out.insert(pos, c), order),
        forall|k: nat| #[trigger]
            out.insert(pos, c).filter(order.has_key(k)) == seen.push(c).filter(order.has_key(k)),
{
    let next = out.insert(pos, c);
    out.insert_ensures(pos, c);
    assert forall|i: int, j: int| 0 <= i < j < next.len() implies order.key(next[i]) <= order.key(
        next[j],
    ) by {
        let a = if i < pos { out[i] } else if i == pos { c } else { out[i - 1] };
        let b = if j < pos { out[j] } else if j == pos { c } else { out[j - 1] };
        if i > pos {
            assert(next[(i - 1) + 1] == out[i - 1]);
        }
        if j > pos {
            assert(next[(j - 1) + 1] == out[j - 1]);
        }
        assert(next[i] == a && next[j] == b);
    }
    let front = out.subrange(0, pos);
    let back = out.subrange(pos, out.len() as int);
    assert(out =~= front + back);
    assert(next =~= front.push(c) + back);
    assert forall|k: nat| #[trigger]
        next.filter(order.has_key(k)) == seen.push(c).filter(order.has_key(k)) by {
        let p = order.has_key(k);
        Seq::filter_distributes_over_add(front, back, p);
        Seq::filter_distributes_over_add(front.push(c), back, p);
        front.lemma_filter_push(c, p);
        seen.lemma_filter_push(c, p);
        assert(out.filter(p) == seen.filter(p));
        if p(c) {
            assert forall|j: int| 0 <= j < back.len() implies !p(#[trigger] back[j]) by {
                assert(back[j] == out[pos + j]);
            }
            back.lemma_all_neg_filter_empty(p);
            assert(back.filter(p) =~= Seq::<Card>::empty());
            assert(front.filter(p) + back.filter(p) =~= front.filter(p));
            assert(front.filter(p).push(c) + back.filter(p) =~= front.filter(p).push(c));
        }
    }
}

/// Sorts `cards` stably by the given order.
pub fn sort_cards(cards: &mut Vec<Card>, order: CardOrder)
    ensures
        stably_sorted(final(cards)@, old(cards)@, order),
        final(cards)@.to_multiset() == old(cards)@.to_multiset(),
        final(cards)@.len() == old(cards)@.len(),
        order.is_total() ==> final(cards)@ == sorted(old(cards)@, order),
{
    let mut out: Vec<Card> = Vec::new();
    let n = cards.len();
    let mut i: usize = 0;
    assert(cards@.take(0) =~= Seq::<Card>::empty());
    while i < n
        invariant
            n == cards.len(),
            i <= n,
            cards@ == old(cards)@,
            out@.len() == i,
            in_order(out@, order),
            out@.to_multiset() == cards@.take(i as int).to_multiset(),
            forall|k: nat| #[trigger]
                out@.filter(order.has_key(k)) == cards@.take(i as int).filter(order.has_key(k)),
        decreases n - i,
    {
        let c = cards[i];
        let key = order.key_of(&c);
        let mut pos: usize = out.len();
        while pos > 0 && order.key_of(&out[pos - 1]) > key
            invariant
                pos <= out.len(),
                key == order.key(c),
                forall|j: int| pos <= j < out.len() ==> order.key(#[trigger] out@[j]) > key,
            decreases pos,
        {
            pos -= 1;
        }
        proof {
            let seen = cards@.take(i as int);
            assert forall|j: int| 0 <= j < pos implies order.key(#[trigger] out@[j]) <= order.key(
                c,
            ) by {
                if j < pos - 1 {
                    assert(order.key(out@[j]) <= order.key(out@[pos - 1]));
                }
            }
            lemma_insert_keeps_stable(out@, seen, c, pos as int, order);
            to_multiset_insert(out@, pos as int, c);
            to_multiset_build(seen, c);
            assert(cards@.take(i + 1) =~= seen.push(c));
        }
        out.insert(pos, c);
        i += 1;
    }
    proof {
        assert(cards@.take(n as int) =~= cards@);
        if order.is_total() {
            lemma_sorted_is_unique(out@, cards@, order);
        }
    }
    *cards = out;
}

} // verus!
