//! The rank-ordered pass over a hand: pairs to five of a kind, straights, and
//! the two kinds of house.
//!
//! The pass reads the cards of a hand laid out by rank and, within a rank, by
//! suit, so that the wildcards of a rank come last. It counts the cards of the
//! rank at hand, follows the run of cards that share a suit or are wild, and
//! follows the run of ascending ranks.
use vstd::prelude::*;
use crate::card::{Card, Rank, Suit};
use crate::hand::PokerHand;
use crate::hand_set::PokerHandSet;
use crate::suit_set::SuitSet;

verus! {

/// The flush-capable groups met in a hand: pairs and triples of one rank whose
/// cards share a suit or are wild. A group goes by the suit of its cards, and
/// by `Wild` where all of them are wildcards.
#[derive(Clone, Copy, Debug)]
pub struct FlushGroups {
    /// The suits of the flush-capable pairs.
    pub pairs: SuitSet,
    /// The suits in which flush-capable pairs of two ranks or more were met.
    pub repeated_pairs: SuitSet,
    /// The suits of the flush-capable triples.
    pub triples: SuitSet,
}

impl FlushGroups {
    /// No group.
    pub open spec fn nothing() -> FlushGroups {
        FlushGroups {
            pairs: SuitSet::nothing(),
            repeated_pairs: SuitSet::nothing(),
            triples: SuitSet::nothing(),
        }
    }

    /// The groups once a card is read that is the `rank_count`-th of its rank
    /// and the `suit_streak`-th of a run of cards that share a suit or are
    /// wild, in a rank whose first card has the suit `suit`. The second card of
    /// a rank completes a pair and the third a triple; the group is
    /// flush-capable where the run holds all of it.
    pub open spec fn noted(self, rank_count: nat, suit_streak: nat, suit: Suit) -> FlushGroups {
        if rank_count == 2 && suit_streak >= 2 {
            FlushGroups {
                pairs: self.pairs.with(suit),
                repeated_pairs: if self.pairs.has(suit) {
                    self.repeated_pairs.with(suit)
                } else {
                    self.repeated_pairs
                },
                triples: self.triples,
            }
        } else if rank_count == 3 && suit_streak >= 3 {
            FlushGroups { triples: self.triples.with(suit), ..self }
        } else {
            self
        }
    }

    /// A flush-capable pair of suit `pair` goes with a flush-capable triple of
    /// suit `triple` and of another rank: either the suits differ and one of the
    /// two groups is all wildcards, or pairs of that one suit were met in two
    /// ranks.
    pub open spec fn pair_goes_with(self, triple: Suit, pair: Suit) -> bool {
        if pair == triple {
            self.repeated_pairs.has(pair)
        } else {
            self.pairs.has(pair) && (triple == Suit::Wild || pair == Suit::Wild)
        }
    }

    /// A flush-capable triple and a flush-capable pair of another rank go together.
    pub open spec fn has_house(self) -> bool {
        exists|triple: Suit, pair: Suit|
            self.triples.has(triple) && #[trigger] self.pair_goes_with(triple, pair)
    }

    /// No group.
    pub fn new() -> (groups: FlushGroups)
        ensures
            groups == FlushGroups::nothing(),
    {
        FlushGroups {
            pairs: SuitSet::new(),
            repeated_pairs: SuitSet::new(),
            triples: SuitSet::new(),
        }
    }

    /// Takes note of the group that a card completes, if it completes one.
    pub fn note(&mut self, rank_count: usize, suit_streak: usize, suit: Suit)
        ensures
            *final(self) == old(self).noted(rank_count as nat, suit_streak as nat, suit),
    {
        if rank_count == 2 && suit_streak >= 2 {
            if self.pairs.contains(suit) {
                self.repeated_pairs.insert(suit);
            }
            self.pairs.insert(suit);
        } else if rank_count == 3 && suit_streak >= 3 {
            self.triples.insert(suit);
        }
    }

    /// Whether a flush-capable triple and a flush-capable pair of another rank
    /// go together.
    pub fn house(&self) -> (b: bool)
        ensures
            b == self.has_house(),
    {
        let triples = &self.triples;
        let pairs = &self.pairs;
        let twice = &self.repeated_pairs;
        let one_suit = (triples.none && twice.none) || (triples.clubs && twice.clubs) || (
        triples.diamonds && twice.diamonds) || (triples.hearts && twice.hearts) || (triples.spades
            && twice.spades) || (triples.wild && twice.wild);
        let wild_triple = triples.wild && (pairs.none || pairs.clubs || pairs.diamonds
            || pairs.hearts || pairs.spades);
        let wild_pair = pairs.wild && (triples.none || triples.clubs || triples.diamonds
            || triples.hearts || triples.spades);
        let b = one_suit || wild_triple || wild_pair;
        proof {
            let st = *self;
            if b {
                let t = if one_suit {
                    if triples.none && twice.none {
                        Suit::NONE
                    } else if triples.clubs && twice.clubs {
                        Suit::Clubs
                    } else if triples.diamonds && twice.diamonds {
                        Suit::Diamonds
                    } else if triples.hearts && twice.hearts {
                        Suit::Hearts
                    } else if triples.spades && twice.spades {
                        Suit::Spades
                    } else {
                        Suit::Wild
                    }
                } else if wild_triple {
                    Suit::Wild
                } else if triples.none {
                    Suit::NONE
                } else if triples.clubs {
                    Suit::Clubs
                } else if triples.diamonds {
                    Suit::Diamonds
                } else if triples.hearts {
                    Suit::Hearts
                } else {
                    Suit::Spades
                };
                let p = if one_suit {
                    t
                } else if wild_triple {
                    if pairs.none {
                        Suit::NONE
                    } else if pairs.clubs {
                        Suit::Clubs
                    } else if pairs.diamonds {
                        Suit::Diamonds
                    } else if pairs.hearts {
                        Suit::Hearts
                    } else {
                        Suit::Spades
                    }
                } else {
                    Suit::Wild
                };
                assert(st.triples.has(t) && st.pair_goes_with(t, p));
            } else {
                assert forall|t: Suit, p: Suit|
                    !(st.triples.has(t) && #[trigger] st.pair_goes_with(t, p)) by {}
            }
        }
        b
    }
}

/// The categories that go by duplicates, added to `found` for a card that is
/// the `rank_count`-th of its rank and the `suit_streak`-th of a run of cards
/// that share a suit or are wild: a pair at the second card, two pairs where a
/// pair was found before, three and four of a kind at the third and the fourth.
/// The fifth makes a flush five where the run holds all five and five of a kind
/// where not, and every further card makes five of a kind.
pub open spec fn flag_duplicates(
    found: PokerHandSet,
    rank_count: nat,
    suit_streak: nat,
) -> PokerHandSet {
    found.with_if(rank_count == 2 && found.has(PokerHand::Pair), PokerHand::TwoPair).with_if(
        rank_count == 2,
        PokerHand::Pair,
    ).with_if(rank_count == 3, PokerHand::ThreeOfAKind).with_if(
        rank_count == 4,
        PokerHand::FourOfAKind,
    ).with_if(rank_count == 5 && suit_streak >= 5, PokerHand::FlushFive).with_if(
        (rank_count == 5 && suit_streak < 5) || rank_count > 5,
        PokerHand::FiveOfAKind,
    )
}

/// Adds to `found` the categories that a card makes by its duplicates.
pub fn add_duplicates(found: &mut PokerHandSet, rank_count: usize, suit_streak: usize)
    ensures
        *final(found) == flag_duplicates(*old(found), rank_count as nat, suit_streak as nat),
{
    let second_pair = rank_count == 2 && found.contains(PokerHand::Pair);
    found.insert_if(second_pair, PokerHand::TwoPair);
    found.insert_if(rank_count == 2, PokerHand::Pair);
    found.insert_if(rank_count == 3, PokerHand::ThreeOfAKind);
    found.insert_if(rank_count == 4, PokerHand::FourOfAKind);
    found.insert_if(rank_count == 5 && suit_streak >= 5, PokerHand::FlushFive);
    found.insert_if((rank_count == 5 && suit_streak < 5) || rank_count > 5, PokerHand::FiveOfAKind);
}

/// What the rank-ordered pass knows after the cards read so far.
pub struct RankScanState {
    /// The rank of the card read last; `NONE` before the first card.
    pub last_rank: Rank,
    /// The number of cards at the end of what was read that share one rank.
    pub rank_count: nat,
    /// The suit of the card read last; `NONE` before the first card.
    pub last_suit: Suit,
    /// The length of the run of cards at the end of what was read that share
    /// a suit or are wild, as `next_suit_streak` counts it.
    pub suit_streak: nat,
    /// The number of wildcards at the end of what was read.
    pub wild_streak: nat,
    /// The suit of the first card of the rank at hand.
    pub group_suit: Suit,
    /// The flush-capable pairs and triples met.
    pub groups: FlushGroups,
    /// The number of ranks at the end of what was read that ascend one by one.
    pub straight_streak: nat,
    /// The rank that the ascending run has reached.
    pub run_rank: Rank,
    /// The suits met in the ascending run.
    pub run_suits: SuitSet,
    /// The suits that would turn a low-ace straight into a straight flush.
    pub ace_suits: SuitSet,
    /// A run `Two, Three, Four, Five` has been read and waits for an ace.
    pub primed: bool,
    /// The categories flagged so far.
    pub found: PokerHandSet,
}

impl RankScanState {
    /// The state before any card is read, with the categories flagged earlier.
    pub open spec fn start(found: PokerHandSet) -> RankScanState {
        RankScanState {
            last_rank: Rank::NONE,
            rank_count: 0,
            last_suit: Suit::NONE,
            suit_streak: 0,
            wild_streak: 0,
            group_suit: Suit::NONE,
            groups: FlushGroups::nothing(),
            straight_streak: 1,
            run_rank: Rank::NONE,
            run_suits: SuitSet::nothing(),
            ace_suits: SuitSet::nothing(),
            primed: false,
            found,
        }
    }

    /// The length of the run of cards that share a suit or are wild, once
    /// `card` is read. A real suit behind wildcards starts a run that holds
    /// those wildcards; a card without a suit is a run of its own.
    pub open spec fn next_suit_streak(self, card: Card) -> nat {
        if self.last_suit == Suit::Wild && card.suit != Suit::Wild && card.suit != Suit::NONE {
            self.wild_streak + 1
        } else if card.suit != Suit::NONE && (card.suit == self.last_suit || (card.suit
            == Suit::Wild && self.last_suit != Suit::NONE)) {
            self.suit_streak + 1
        } else {
            1
        }
    }

    /// The state after counting `card` among the cards of its rank: the
    /// categories that go by duplicates, and the flush-capable groups.
    pub open spec fn count_card(self, card: Card) -> RankScanState {
        let rank_count = if card.rank == self.last_rank {
            self.rank_count + 1
        } else {
            1
        };
        let suit_streak = self.next_suit_streak(card);
        let wild_streak = if card.suit == Suit::Wild {
            self.wild_streak + 1
        } else {
            0
        };
        let group_suit = if rank_count == 1 {
            card.suit
        } else {
            self.group_suit
        };
        RankScanState {
            last_rank: card.rank,
            rank_count,
            last_suit: card.suit,
            suit_streak,
            wild_streak,
            group_suit,
            groups: self.groups.noted(rank_count, suit_streak, group_suit),
            found: flag_duplicates(self.found, rank_count, suit_streak),
            ..self
        }
    }

    /// The state after following the ascending run through `card`, which
    /// `count_card` has counted already. Nothing is followed once a straight
    /// is flagged.
    ///
    /// A card of the rank that the run has reached stays in the run, a card of
    /// the next rank lengthens it, and any other card starts it over. A `Five`
    /// that brings the run to four primes the low-ace straight; where the run
    /// is of one suit, with or without wildcards, an ace of that suit or a
    /// wild ace would make a straight flush of it, and those suits are
    /// recorded.
    ///
    /// The card makes a straight
    /// - where it is an `Ace` that meets a primed run and has none of the
    ///   recorded suits; or
    /// - where the run has reached five, holds cards of two suits or more, and
    ///   the run of cards that share a suit or are wild, its wildcards counted
    ///   twice, is below five: a run that a flush covers is left to the
    ///   straight flush.
    pub open spec fn follow_run(self, card: Card) -> RankScanState {
        if self.found.has(PokerHand::Straight) {
            self
        } else {
            let wheel = card.rank == Rank::Ace && self.primed && !self.ace_suits.has(card.suit);
            let stays = card.rank == self.run_rank;
            let grows = !stays && card.rank == self.run_rank.spec_next();
            let straight_streak = if stays {
                self.straight_streak
            } else if grows {
                self.straight_streak + 1
            } else {
                1
            };
            let run_suits = if grows || stays {
                self.run_suits.with(card.suit)
            } else {
                SuitSet::nothing().with(card.suit)
            };
            let primes = straight_streak == 4 && card.rank == Rank::Five;
            let one_suit = run_suits.count() == 1 || (run_suits.count() == 2 && run_suits.has(
                Suit::Wild,
            ));
            let run = straight_streak >= 5 && self.suit_streak + self.wild_streak < 5
                && run_suits.count() > 1;
            RankScanState {
                straight_streak,
                run_rank: card.rank,
                run_suits,
                ace_suits: if primes && one_suit {
                    self.ace_suits.union(run_suits).with(Suit::Wild)
                } else {
                    self.ace_suits
                },
                primed: self.primed || primes,
                found: self.found.with_if(wheel || run, PokerHand::Straight),
                ..self
            }
        }
    }

    /// The state after reading one more card.
    pub open spec fn step(self, card: Card) -> RankScanState {
        self.count_card(card).follow_run(card)
    }

    /// The state after reading `cards` from the first to the last, with the
    /// categories flagged earlier.
    pub open spec fn scan(cards: Seq<Card>, found: PokerHandSet) -> RankScanState
        decreases cards.len(),
    {
        if cards.len() == 0 {
            RankScanState::start(found)
        } else {
            RankScanState::scan(cards.drop_last(), found).step(cards.last())
        }
    }

    /// The categories of the hand, once every card is read: those flagged on
    /// the way, a full house where a triple and a pair of another rank were
    /// met, and a flush house where both can be of one suit.
    pub open spec fn finish(self) -> PokerHandSet {
        self.found.with_if(
            self.found.has(PokerHand::ThreeOfAKind) && self.found.has(PokerHand::TwoPair),
            PokerHand::FullHouse,
        ).with_if(self.groups.has_house(), PokerHand::FlushHouse)
    }
}

/// The running state of the rank-ordered pass: the fields of
/// [`RankScanState`], with machine integers for the lengths.
#[derive(Clone, Copy, Debug)]
pub struct RankScan {
    pub last_rank: Rank,
    pub rank_count: usize,
    pub last_suit: Suit,
    pub suit_streak: usize,
    pub wild_streak: usize,
    pub group_suit: Suit,
    pub groups: FlushGroups,
    pub straight_streak: usize,
    pub run_rank: Rank,
    pub run_suits: SuitSet,
    pub ace_suits: SuitSet,
    pub primed: bool,
    pub found: PokerHandSet,
}

impl View for RankScan {
    type V = RankScanState;

    /// The state, with its lengths as numbers without bound.
    open spec fn view(&self) -> RankScanState {
        RankScanState {
            last_rank: self.last_rank,
            rank_count: self.rank_count as nat,
            last_suit: self.last_suit,
            suit_streak: self.suit_streak as nat,
            wild_streak: self.wild_streak as nat,
            group_suit: self.group_suit,
            groups: self.groups,
            straight_streak: self.straight_streak as nat,
            run_rank: self.run_rank,
            run_suits: self.run_suits,
            ace_suits: self.ace_suits,
            primed: self.primed,
            found: self.found,
        }
    }
}

impl RankScan {
    /// The lengths can still grow by one.
    pub open spec fn has_room(self) -> bool {
        &&& self.rank_count < usize::MAX
        &&& self.suit_streak < usize::MAX
        &&& self.wild_streak < usize::MAX
        &&& self.straight_streak < usize::MAX
    }

    /// The state before any card is read, with the categories flagged earlier.
    pub fn new(found: PokerHandSet) -> (scan: RankScan)
        ensures
            scan@ == RankScanState::start(found),
    {
        RankScan {
            last_rank: Rank::NONE,
            rank_count: 0,
            last_suit: Suit::NONE,
            suit_streak: 0,
            wild_streak: 0,
            group_suit: Suit::NONE,
            groups: FlushGroups::new(),
            straight_streak: 1,
            run_rank: Rank::NONE,
            run_suits: SuitSet::new(),
            ace_suits: SuitSet::new(),
            primed: false,
            found,
        }
    }

    /// Counts `card` among the cards of its rank.
    fn count_card(&mut self, card: Card)
        requires
            old(self).has_room(),
        ensures
            final(self)@ == old(self)@.count_card(card),
    {
        let rank_count = if card.rank == self.last_rank {
            self.rank_count + 1
        } else {
            1
        };
        let suit_streak = self.next_suit_streak(card);
        let wild_streak = if card.suit == Suit::Wild {
            self.wild_streak + 1
        } else {
            0
        };
        let group_suit = if rank_count == 1 {
            card.suit
        } else {
            self.group_suit
        };
        let mut groups = self.groups;
        groups.note(rank_count, suit_streak, group_suit);
        let mut found = self.found;
        add_duplicates(&mut found, rank_count, suit_streak);
        *self = RankScan {
            last_rank: card.rank,
            rank_count,
            last_suit: card.suit,
            suit_streak,
            wild_streak,
            group_suit,
            groups,
            found,
            straight_streak: self.straight_streak,
            run_rank: self.run_rank,
            run_suits: self.run_suits,
            ace_suits: self.ace_suits,
            primed: self.primed,
        };
    }

    /// The length of the run of cards that share a suit or are wild, once
    /// `card` is read.
    fn next_suit_streak(&self, card: Card) -> (n: usize)
        requires
            self.has_room(),
        ensures
            n == self@.next_suit_streak(card),
    {
        if self.last_suit == Suit::Wild && card.suit != Suit::Wild && card.suit != Suit::NONE {
            self.wild_streak + 1
        } else if card.suit != Suit::NONE && (card.suit == self.last_suit || (card.suit
            == Suit::Wild && self.last_suit != Suit::NONE)) {
            self.suit_streak + 1
        } else {
            1
        }
    }

    /// Follows the ascending run through `card`.
    fn follow_run(&mut self, card: Card)
        requires
            old(self).straight_streak < usize::MAX,
        ensures
            final(self)@ == old(self)@.follow_run(card),
    {
        if self.found.contains(PokerHand::Straight) {
            return ;
        }
        let wheel = card.rank == Rank::Ace && self.primed && !self.ace_suits.contains(card.suit);
        let stays = card.rank == self.run_rank;
        let grows = !stays && card.rank == self.run_rank.next();
        if stays {
            self.run_suits.insert(card.suit);
        } else if grows {
            self.straight_streak += 1;
            self.run_rank = card.rank;
            self.run_suits.insert(card.suit);
        } else {
            self.straight_streak = 1;
            self.run_rank = card.rank;
            self.run_suits = SuitSet::new();
            self.run_suits.insert(card.suit);
        }
        let suits = self.run_suits.len();
        if self.straight_streak == 4 && card.rank == Rank::Five {
            self.primed = true;
            if suits == 1 || (suits == 2 && self.run_suits.contains(Suit::Wild)) {
                let run_suits = self.run_suits;
                self.ace_suits.extend(&run_suits);
                self.ace_suits.insert(Suit::Wild);
            }
        }
        let run = self.straight_streak >= 5 && self.suit_streak < 5 && self.wild_streak < 5
            && self.suit_streak + self.wild_streak < 5 && suits > 1;
        self.found.insert_if(wheel || run, PokerHand::Straight);
    }

    /// Reads one more card.
    pub fn step(&mut self, card: Card)
        requires
            old(self).has_room(),
        ensures
            final(self)@ == old(self)@.step(card),
    {
        self.count_card(card);
        self.follow_run(card);
    }

    /// Reads `cards` from the first to the last, with the categories flagged
    /// earlier.
    pub fn scan(cards: &Vec<Card>, found: PokerHandSet) -> (scan: RankScan)
        ensures
            scan@ == RankScanState::scan(cards@, found),
    {
        let mut scan = RankScan::new(found);
        let mut i: usize = 0;
        assert(cards@.take(0) =~= Seq::<Card>::empty());
        while i < cards.len()
            invariant
                i <= cards.len(),
                scan@ == RankScanState::scan(cards@.take(i as int), found),
                scan.rank_count <= i,
                scan.suit_streak <= i,
                scan.wild_streak <= i,
                scan.straight_streak <= i || scan.straight_streak == 1,
            decreases cards.len() - i,
        {
            assert(cards@.take(i + 1).drop_last() =~= cards@.take(i as int));
            scan.step(cards[i]);
            i += 1;
        }
        assert(cards@.take(i as int) =~= cards@);
        scan
    }

    /// The categories of the hand, once every card is read.
    pub fn finish(&self) -> (found: PokerHandSet)
        ensures
            found == self@.finish(),
    {
        let mut found = self.found;
        if found.contains(PokerHand::ThreeOfAKind) && found.contains(PokerHand::TwoPair) {
            found.insert(PokerHand::FullHouse);
        }
        if self.groups.house() {
            found.insert(PokerHand::FlushHouse);
        }
        found
    }
}

} // verus!
