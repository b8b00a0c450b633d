//! The suit-ordered pass over a hand: flushes, flush fives and straight flushes.
//!
//! The pass reads cards laid out by suit and, within a suit, by rank, with
//! every wildcard already replaced by one card of each real suit. It keeps
//! three running lengths and a pending low-ace straight, and flags a category
//! at the card that completes it.
use vstd::prelude::*;
use crate::card::{Card, Rank, Suit};
use crate::hand::PokerHand;
use crate::hand_set::PokerHandSet;
use crate::suit_set::SuitSet;

verus! {

/// What the suit-ordered pass knows after the cards read so far.
pub struct SuitScanState {
    /// The suit of the card read last; `NONE` before the first card.
    pub last_suit: Suit,
    /// The rank of the card read last; `NONE` before the first card.
    pub last_rank: Rank,
    /// The number of cards at the end of what was read that share one suit.
    pub suit_streak: nat,
    /// The number of cards at the end of what was read that share one suit and
    /// one rank.
    pub rank_streak: nat,
    /// The number of ranks at the end of what was read that ascend one by one.
    pub straight_streak: nat,
    /// A run `Two, Three, Four, Five` has been read and waits for an ace.
    pub primed: bool,
    /// The suits in which such a run was read as four cards or more of one suit.
    pub ace_suits: SuitSet,
    /// The categories flagged so far.
    pub found: PokerHandSet,
}

impl SuitScanState {
    /// The state before any card is read.
    pub open spec fn start() -> SuitScanState {
        SuitScanState {
            last_suit: Suit::NONE,
            last_rank: Rank::NONE,
            suit_streak: 0,
            rank_streak: 0,
            straight_streak: 1,
            primed: false,
            ace_suits: SuitSet::nothing(),
            found: PokerHandSet::nothing(),
        }
    }

    /// Whether `card` continues the suit streak: it has the suit of the card
    /// before it, or it is a wildcard behind a card with a suit. A card
    /// without a suit continues nothing.
    pub open spec fn continues_suit(self, card: Card) -> bool {
        card.suit != Suit::NONE && (card.suit == self.last_suit || (card.suit == Suit::Wild
            && self.last_suit != Suit::NONE))
    }

    /// The state after reading one more card.
    ///
    /// A card that continues the suit streak lengthens it; any other card
    /// starts all lengths over and drops a pending low-ace straight. Within a
    /// suit streak, a card of the rank before it lengthens the rank streak, a
    /// card of the next rank lengthens the ascending run, and any other card
    /// starts the run over. A `Five` that brings the run to four primes the
    /// low-ace straight and records its suit.
    ///
    /// With five cards or more in the suit streak, the card makes
    /// - a flush, where the streak is longer than the ascending run and the
    ///   rank streak is below five: a run that fills the streak is a straight
    ///   flush and no flush;
    /// - a flush five, where the rank streak has reached five;
    /// - a straight flush, where the ascending run has reached five.
    ///
    /// An `Ace` that meets a primed run of a recorded suit makes a straight
    /// flush as well.
    pub open spec fn step(self, card: Card) -> SuitScanState {
        let same_suit = self.continues_suit(card);
        let suit_streak = if same_suit {
            self.suit_streak + 1
        } else {
            1
        };
        let rank_streak = if same_suit && card.rank == self.last_rank {
            self.rank_streak + 1
        } else {
            1
        };
        let straight_streak = if !same_suit {
            1
        } else if card.rank == self.last_rank {
            self.straight_streak
        } else if card.rank == self.last_rank.spec_next() {
            self.straight_streak + 1
        } else {
            1
        };
        let primes = card.rank == Rank::Five && straight_streak == 4;
        let primed = primes || (same_suit && self.primed);
        let ace_suits = if primes && suit_streak >= 4 {
            self.ace_suits.with(card.suit)
        } else {
            self.ace_suits
        };
        let flush = suit_streak >= 5 && suit_streak > straight_streak && rank_streak < 5;
        let flush_five = suit_streak >= 5 && rank_streak >= 5;
        let run = straight_streak >= 5 && suit_streak >= 5;
        let wheel = !run && primed && card.rank == Rank::Ace;
        SuitScanState {
            last_suit: card.suit,
            last_rank: card.rank,
            suit_streak,
            rank_streak,
            straight_streak,
            primed,
            ace_suits,
            found: self.found.with_if(flush, PokerHand::Flush).with_if(
                flush_five,
                PokerHand::FlushFive,
            ).with_if(run || (wheel && ace_suits.has(card.suit)), PokerHand::StraightFlush),
        }
    }

    /// The state after reading `cards` from the first to the last.
    pub open spec fn scan(cards: Seq<Card>) -> SuitScanState
        decreases cards.len(),
    {
        if cards.len() == 0 {
            SuitScanState::start()
        } else {
            SuitScanState::scan(cards.drop_last()).step(cards.last())
        }
    }
}

/// The running state of the suit-ordered pass: the fields of
/// [`SuitScanState`], with machine integers for the lengths.
#[derive(Clone, Copy, Debug)]
pub struct SuitScan {
    pub last_suit: Suit,
    pub last_rank: Rank,
    pub suit_streak: usize,
    pub rank_streak: usize,
    pub straight_streak: usize,
    pub primed: bool,
    pub ace_suits: SuitSet,
    pub found: PokerHandSet,
}

impl View for SuitScan {
    type V = SuitScanState;

    /// The state, with its lengths as numbers without bound.
    open spec fn view(&self) -> SuitScanState {
        SuitScanState {
            last_suit: self.last_suit,
            last_rank: self.last_rank,
            suit_streak: self.suit_streak as nat,
            rank_streak: self.rank_streak as nat,
            straight_streak: self.straight_streak as nat,
            primed: self.primed,
            ace_suits: self.ace_suits,
            found: self.found,
        }
    }
}

impl SuitScan {
    /// The lengths can still grow by one.
    pub open spec fn has_room(self) -> bool {
        &&& self.suit_streak < usize::MAX
        &&& self.rank_streak < usize::MAX
        &&& self.straight_streak < usize::MAX
    }

    /// The state before any card is read.
    pub fn new() -> (scan: SuitScan)
        ensures
            scan@ == SuitScanState::start(),
    {
        SuitScan {
            last_suit: Suit::NONE,
            last_rank: Rank::NONE,
            suit_streak: 0,
            rank_streak: 0,
            straight_streak: 1,
            primed: false,
            ace_suits: SuitSet::new(),
            found: PokerHandSet::new(),
        }
    }

    /// Reads one more card.
    pub fn step(&mut self, card: Card)
        requires
            old(self).has_room(),
        ensures
            final(self)@ == old(self)@.step(card),
    {
        if card.suit != Suit::NONE && (card.suit == self.last_suit || (card.suit == Suit::Wild
            && self.last_suit != Suit::NONE)) {
            self.suit_streak += 1;
            if card.rank == self.last_rank {
                self.rank_streak += 1;
            } else {
                self.rank_streak = 1;
                if card.rank == self.last_rank.next() {
                    self.straight_streak += 1;
                } else {
                    self.straight_streak = 1;
                }
            }
        } else {
            // A new suit: the pending low-ace straight and all lengths start over.
            self.primed = false;
            self.suit_streak = 1;
            self.straight_streak = 1;
            self.rank_streak = 1;
        }
        if card.rank == Rank::Five && self.straight_streak == 4 {
            self.primed = true;
            if self.suit_streak >= 4 {
                self.ace_suits.insert(card.suit);
            }
        }
        if self.suit_streak >= 5 && self.suit_streak > self.straight_streak && self.rank_streak
            < 5 {
            self.found.insert(PokerHand::Flush);
        }
        if self.suit_streak >= 5 && self.rank_streak >= 5 {
            self.found.insert(PokerHand::FlushFive);
        }
        if self.straight_streak >= 5 && self.suit_streak >= 5 {
            self.found.insert(PokerHand::StraightFlush);
        } else if self.primed && card.rank == Rank::Ace && self.ace_suits.contains(card.suit) {
            self.found.insert(PokerHand::StraightFlush);
        }
        self.last_suit = card.suit;
        self.last_rank = card.rank;
    }

    /// Reads `cards` from the first to the last.
    pub fn scan(cards: &Vec<Card>) -> (scan: SuitScan)
        ensures
            scan@ == SuitScanState::scan(cards@),
    {
        let mut scan = SuitScan::new();
        let mut i: usize = 0;
        assert(cards@.take(0) =~= Seq::<Card>::empty());
        while i < cards.len()
            invariant
                i <= cards.len(),
                scan@ == SuitScanState::scan(cards@.take(i as int)),
                scan.suit_streak <= i,
                scan.rank_streak <= i,
                scan.straight_streak <= i || scan.straight_streak == 1,
            decreases cards.len() - i,
        {
            assert(cards@.take(i + 1).drop_last() =~= cards@.take(i as int));
            scan.step(cards[i]);
            i += 1;
        }
        assert(cards@.take(i as int) =~= cards@);
        scan
    }
}

} // verus!
