use poker_hands::card::{Card, CardEntry, Rank, Suit};
use poker_hands::deck::Deck;
use poker_hands::hand::Hand;

const REAL_SUITS: [Suit; 4] = [Suit::Clubs, Suit::Diamonds, Suit::Hearts, Suit::Spades];

fn card(rank: Rank, suit: Suit) -> Card {
    Card { rank, suit }
}

fn sorted_by_value(cards: &[Card]) -> Vec<Card> {
    let mut v = cards.to_vec();
    v.sort_by(|a, b| a.rank.cmp(&b.rank).then(a.suit.cmp(&b.suit)));
    v
}

fn small_deck() -> Deck {
    Deck::from(vec![
        card(Rank::King, Suit::Hearts),
        card(Rank::Two, Suit::Clubs),
        card(Rank::King, Suit::Clubs),
        card(Rank::Two, Suit::Wild),
        card(Rank::King, Suit::Hearts),
        card(Rank::Five, Suit::Clubs),
        card(Rank::King, Suit::Spades),
    ])
}

#[test]
fn new_deck_is_the_standard_deck() {
    let deck = Deck::new();
    assert_eq!(deck.size(), 52);
    for (s, suit) in REAL_SUITS.iter().enumerate() {
        for number in 2..=14usize {
            let expected = card(Rank::from(number), *suit);
            assert_eq!(deck.cards[s * 13 + number - 2], expected);
            assert_eq!(deck.count_card(&expected), 1);
        }
        assert_eq!(deck.count_suit(suit), 13);
    }
    for number in 2..=14usize {
        assert_eq!(deck.count_rank(&Rank::from(number)), 4);
    }
    assert_eq!(deck.count_suit(&Suit::Wild), 0);
    assert_eq!(deck.count_suit(&Suit::NONE), 0);
    assert_eq!(deck.count_rank(&Rank::NONE), 0);
    assert_eq!(deck.cards[0], card(Rank::Two, Suit::Clubs));
    assert_eq!(deck.cards[51], card(Rank::Ace, Suit::Spades));
}

#[test]
fn reset_gives_the_standard_deck_whatever_was_there() {
    let mut deck = small_deck();
    deck.reset();
    assert_eq!(deck.cards, Deck::new().cards);
    deck.reset();
    assert_eq!(deck.cards, Deck::new().cards);
    let mut empty = Deck::from(Vec::new());
    empty.reset();
    assert_eq!(empty.cards, Deck::new().cards);
}

#[test]
fn deck_from_cards_keeps_them_as_given() {
    let cards = vec![card(Rank::Ace, Suit::Wild), card(Rank::Ace, Suit::Wild)];
    let deck = Deck::from(cards.clone());
    assert_eq!(deck.cards, cards);
    assert_eq!(deck.size(), 2);
}

#[test]
fn add_card_appends_and_allows_duplicates() {
    let mut deck = Deck::new();
    let ace = card(Rank::Ace, Suit::Spades);
    deck.add_card(ace);
    deck.add_card(card(Rank::Ace, Suit::Wild));
    assert_eq!(deck.size(), 54);
    assert_eq!(deck.cards[52], ace);
    assert_eq!(deck.cards[53], card(Rank::Ace, Suit::Wild));
    assert_eq!(deck.count_card(&ace), 2);
    assert_eq!(deck.count_rank(&Rank::Ace), 6);
    assert_eq!(deck.count_suit(&Suit::Wild), 1);
}

#[test]
fn remove_card_removes_the_first_match_only() {
    let mut deck = small_deck();
    deck.remove_card(&card(Rank::King, Suit::Hearts));
    assert_eq!(
        deck.cards,
        vec![
            card(Rank::Two, Suit::Clubs),
            card(Rank::King, Suit::Clubs),
            card(Rank::Two, Suit::Wild),
            card(Rank::King, Suit::Hearts),
            card(Rank::Five, Suit::Clubs),
            card(Rank::King, Suit::Spades),
        ]
    );
}

#[test]
fn remove_card_leaves_a_deck_without_it_alone() {
    let mut deck = small_deck();
    deck.remove_card(&card(Rank::Ace, Suit::Hearts));
    assert_eq!(deck.cards, small_deck().cards);
    let mut empty = Deck::from(Vec::new());
    empty.remove_card(&card(Rank::Ace, Suit::Hearts));
    assert_eq!(empty.size(), 0);
}

#[test]
fn remove_suits_removes_every_card_of_the_suit() {
    let mut deck = small_deck();
    deck.remove_suits(&Suit::Clubs);
    assert_eq!(
        deck.cards,
        vec![
            card(Rank::King, Suit::Hearts),
            card(Rank::Two, Suit::Wild),
            card(Rank::King, Suit::Hearts),
            card(Rank::King, Suit::Spades),
        ]
    );
    let mut standard = Deck::new();
    standard.remove_suits(&Suit::Hearts);
    assert_eq!(standard.size(), 39);
    assert_eq!(standard.count_suit(&Suit::Hearts), 0);
}

#[test]
fn remove_ranks_removes_every_card_of_the_rank() {
    let mut deck = small_deck();
    deck.remove_ranks(&Rank::King);
    assert_eq!(
        deck.cards,
        vec![
            card(Rank::Two, Suit::Clubs),
            card(Rank::Two, Suit::Wild),
            card(Rank::Five, Suit::Clubs),
        ]
    );
    deck.remove_ranks(&Rank::Ace);
    assert_eq!(deck.size(), 3);
}

#[test]
fn remove_rank_removes_the_first_matches_up_to_the_count() {
    let mut deck = small_deck();
    deck.remove_rank(&Rank::King, 2);
    assert_eq!(
        deck.cards,
        vec![
            card(Rank::Two, Suit::Clubs),
            card(Rank::Two, Suit::Wild),
            card(Rank::King, Suit::Hearts),
            card(Rank::Five, Suit::Clubs),
            card(Rank::King, Suit::Spades),
        ]
    );
}

#[test]
fn remove_rank_with_count_zero_removes_nothing() {
    let mut deck = small_deck();
    deck.remove_rank(&Rank::King, 0);
    assert_eq!(deck.cards, small_deck().cards);
}

#[test]
fn remove_rank_removes_what_there_is_when_asked_for_more() {
    let mut deck = small_deck();
    deck.remove_rank(&Rank::King, 100);
    assert_eq!(
        deck.cards,
        vec![
            card(Rank::Two, Suit::Clubs),
            card(Rank::Two, Suit::Wild),
            card(Rank::Five, Suit::Clubs),
        ]
    );
    deck.remove_rank(&Rank::King, u64::MAX);
    assert_eq!(deck.size(), 3);
}

#[test]
fn remove_suit_removes_the_first_matches_up_to_the_count() {
    let mut deck = small_deck();
    deck.remove_suit(&Suit::Clubs, 1);
    assert_eq!(
        deck.cards,
        vec![
            card(Rank::King, Suit::Hearts),
            card(Rank::King, Suit::Clubs),
            card(Rank::Two, Suit::Wild),
            card(Rank::King, Suit::Hearts),
            card(Rank::Five, Suit::Clubs),
            card(Rank::King, Suit::Spades),
        ]
    );
    deck.remove_suit(&Suit::Clubs, 5);
    assert_eq!(deck.count_suit(&Suit::Clubs), 0);
    assert_eq!(deck.size(), 4);
}

#[test]
fn counts_are_exact() {
    let deck = small_deck();
    assert_eq!(deck.count_rank(&Rank::King), 4);
    assert_eq!(deck.count_rank(&Rank::Two), 2);
    assert_eq!(deck.count_rank(&Rank::Ace), 0);
    assert_eq!(deck.count_suit(&Suit::Clubs), 3);
    assert_eq!(deck.count_suit(&Suit::Wild), 1);
    assert_eq!(deck.count_suit(&Suit::Diamonds), 0);
    assert_eq!(deck.count_card(&card(Rank::King, Suit::Hearts)), 2);
    assert_eq!(deck.count_card(&card(Rank::King, Suit::Spades)), 1);
    assert_eq!(deck.count_card(&card(Rank::King, Suit::Diamonds)), 0);
    assert_eq!(deck.size(), 7);
}

#[test]
fn shuffle_keeps_the_cards_and_changes_their_order() {
    let mut deck = Deck::new();
    deck.shuffle();
    assert_eq!(deck.size(), 52);
    assert_eq!(sorted_by_value(&deck.cards), sorted_by_value(&Deck::new().cards));
    assert_ne!(deck.cards, Deck::new().cards);
}

#[test]
fn shuffle_of_a_deck_with_duplicates_keeps_their_number() {
    let mut deck = small_deck();
    deck.shuffle();
    assert_eq!(sorted_by_value(&deck.cards), sorted_by_value(&small_deck().cards));
    let mut empty = Deck::from(Vec::new());
    empty.shuffle();
    assert_eq!(empty.size(), 0);
}

#[test]
fn sort_by_rank_is_stable() {
    let mut deck = small_deck();
    deck.sort_by_rank();
    assert_eq!(
        deck.cards,
        vec![
            card(Rank::Two, Suit::Clubs),
            card(Rank::Two, Suit::Wild),
            card(Rank::Five, Suit::Clubs),
            card(Rank::King, Suit::Hearts),
            card(Rank::King, Suit::Clubs),
            card(Rank::King, Suit::Hearts),
            card(Rank::King, Suit::Spades),
        ]
    );
}

#[test]
fn sort_by_suit_is_stable() {
    let mut deck = small_deck();
    deck.sort_by_suit();
    assert_eq!(
        deck.cards,
        vec![
            card(Rank::Two, Suit::Clubs),
            card(Rank::King, Suit::Clubs),
            card(Rank::Five, Suit::Clubs),
            card(Rank::King, Suit::Hearts),
            card(Rank::King, Suit::Hearts),
            card(Rank::King, Suit::Spades),
            card(Rank::Two, Suit::Wild),
        ]
    );
}

#[test]
fn sorting_agrees_with_the_stable_sort_of_the_standard_library() {
    let mut deck = Deck::new();
    deck.add_card(card(Rank::NONE, Suit::Wild));
    deck.add_card(card(Rank::Ace, Suit::NONE));
    deck.shuffle();
    let mut by_rank = deck.clone();
    by_rank.sort_by_rank();
    let mut expected = deck.cards.clone();
    expected.sort_by(|a, b| a.rank.cmp(&b.rank));
    assert_eq!(by_rank.cards, expected);
    let mut by_suit = deck.clone();
    by_suit.sort_by_suit();
    let mut expected = deck.cards.clone();
    expected.sort_by(|a, b| a.suit.cmp(&b.suit));
    assert_eq!(by_suit.cards, expected);
}

#[test]
fn draw_with_follows_the_choices() {
    let deck = Deck::from(vec![
        card(Rank::Two, Suit::Clubs),
        card(Rank::Three, Suit::Clubs),
        card(Rank::Four, Suit::Clubs),
        card(Rank::Five, Suit::Clubs),
    ]);
    let hand: Hand = deck.draw_with(&vec![0, 0, 0, 0]);
    assert_eq!(
        hand.cards,
        vec![
            card(Rank::Two, Suit::Clubs),
            card(Rank::Five, Suit::Clubs),
            card(Rank::Four, Suit::Clubs),
            card(Rank::Three, Suit::Clubs),
        ]
    );
    let hand = deck.draw_with(&vec![3, 1]);
    assert_eq!(hand.cards, vec![card(Rank::Five, Suit::Clubs), card(Rank::Three, Suit::Clubs)]);
    let hand = deck.draw_with(&Vec::new());
    assert_eq!(hand.cards, Vec::new());
    assert_eq!(deck.size(), 4);
}

#[test]
fn drawing_the_whole_deck_returns_every_card_once() {
    let deck = Deck::new();
    let hand = deck.draw_hand(52);
    assert_eq!(hand.cards.len(), 52);
    assert_eq!(sorted_by_value(&hand.cards), sorted_by_value(&deck.cards));
    let deck = small_deck();
    let hand = deck.draw_hand(7);
    assert_eq!(sorted_by_value(&hand.cards), sorted_by_value(&deck.cards));
}

#[test]
fn drawing_leaves_the_deck_alone_and_takes_no_card_too_often() {
    let deck = small_deck();
    for size in 0..=7u8 {
        let hand = deck.draw_hand(size);
        assert_eq!(hand.cards.len(), size as usize);
        for c in hand.cards.iter() {
            let drawn = hand.cards.iter().filter(|x| *x == c).count() as u64;
            assert!(drawn <= deck.count_card(c));
        }
    }
    assert_eq!(deck.cards, small_deck().cards);
}

#[test]
fn drawing_from_a_deck_of_one_card_many_times_over_repeats_it() {
    let ace = card(Rank::Ace, Suit::Wild);
    let deck = Deck::from(vec![ace; 10]);
    let hand = deck.draw_hand(5);
    assert_eq!(hand.cards, vec![ace; 5]);
}

#[test]
fn drawing_from_a_large_deck_reaches_past_the_first_256_cards() {
    let mut cards = vec![card(Rank::Two, Suit::Clubs); 300];
    cards.extend(vec![card(Rank::Ace, Suit::Spades); 300]);
    let deck = Deck::from(cards);
    let mut aces = 0;
    for _ in 0..50 {
        let hand = deck.draw_hand(10);
        aces += hand.cards.iter().filter(|c| c.rank == Rank::Ace).count();
    }
    assert!(aces > 0);
}

#[test]
fn drawing_nothing_from_an_empty_deck_gives_an_empty_hand() {
    let deck = Deck::from(Vec::new());
    let hand = deck.draw_hand(0);
    assert_eq!(hand.cards.len(), 0);
}

#[test]
fn a_deck_cannot_give_more_cards_than_it_holds() {
    let deck = small_deck();
    assert!(deck.can_draw(0));
    assert!(deck.can_draw(7));
    assert!(!deck.can_draw(8));
    assert!(!deck.can_draw(255));
    assert!(Deck::new().can_draw(52));
    assert!(!Deck::new().can_draw(53));
    assert!(Deck::from(Vec::new()).can_draw(0));
    assert!(!Deck::from(Vec::new()).can_draw(1));
}

fn entry(rank: Option<usize>, suit: Option<&str>) -> CardEntry {
    CardEntry { rank, suit: suit.map(|s| s.to_string()) }
}

#[test]
fn a_deck_is_read_from_complete_entries() {
    let entries = vec![
        entry(Some(14), Some("Wild")),
        entry(Some(2), Some("Clubs")),
        entry(Some(1), Some("Spades")),
        entry(Some(40), Some("nothing")),
        entry(Some(14), Some("Wild")),
    ];
    let deck = Deck::from_entries(Some(&entries)).unwrap();
    assert_eq!(
        deck.cards,
        vec![
            card(Rank::Ace, Suit::Wild),
            card(Rank::Two, Suit::Clubs),
            card(Rank::Ace, Suit::Spades),
            card(Rank::NONE, Suit::NONE),
            card(Rank::Ace, Suit::Wild),
        ]
    );
    assert_eq!(Deck::from_entries(Some(&Vec::new())).unwrap().size(), 0);
}

#[test]
fn a_missing_list_of_entries_is_no_deck() {
    assert_eq!(Deck::from_entries(None).unwrap_err(), "Invalid deck object");
}

#[test]
fn an_incomplete_entry_is_no_card() {
    let no_suit = vec![entry(Some(2), Some("Clubs")), entry(Some(3), None)];
    assert_eq!(Deck::from_entries(Some(&no_suit)).unwrap_err(), "Invalid card object");
    let no_rank = vec![entry(None, Some("Clubs")), entry(Some(3), Some("Clubs"))];
    assert_eq!(Deck::from_entries(Some(&no_rank)).unwrap_err(), "Invalid card object");
    let neither = vec![entry(None, None)];
    assert_eq!(Deck::from_entries(Some(&neither)).unwrap_err(), "Invalid card object");
}

#[test]
fn a_deck_is_written_as_numbers_and_labels() {
    let deck = small_deck();
    assert_eq!(
        deck.to_entries(),
        vec![
            (13, "Hearts"),
            (2, "Clubs"),
            (13, "Clubs"),
            (2, "Wild"),
            (13, "Hearts"),
            (5, "Clubs"),
            (13, "Spades"),
        ]
    );
    let entries: Vec<CardEntry> = deck
        .to_entries()
        .iter()
        .map(|(rank, suit)| entry(Some(*rank), Some(suit)))
        .collect();
    assert_eq!(Deck::from_entries(Some(&entries)).unwrap().cards, deck.cards);
}
