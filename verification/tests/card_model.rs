use poker_hands::card::{Card, Rank, Suit};
use poker_hands::text::str_eq;

const SUITS: [Suit; 6] = [
    Suit::NONE,
    Suit::Clubs,
    Suit::Diamonds,
    Suit::Hearts,
    Suit::Spades,
    Suit::Wild,
];

const RANKS: [Rank; 14] = [
    Rank::NONE,
    Rank::Two,
    Rank::Three,
    Rank::Four,
    Rank::Five,
    Rank::Six,
    Rank::Seven,
    Rank::Eight,
    Rank::Nine,
    Rank::Ten,
    Rank::Jack,
    Rank::Queen,
    Rank::King,
    Rank::Ace,
];

#[test]
fn suit_labels_are_as_written() {
    let labels = ["NONE", "Clubs", "Diamonds", "Hearts", "Spades", "Wild"];
    for (suit, label) in SUITS.iter().zip(labels.iter()) {
        assert_eq!(suit.to_str(), *label);
    }
}

#[test]
fn suit_round_trips_through_its_label() {
    for suit in SUITS.iter() {
        assert_eq!(Suit::from_str(suit.to_str()), *suit);
    }
}

#[test]
fn unknown_suit_label_is_no_suit() {
    assert_eq!(Suit::from_str("clubs"), Suit::NONE);
    assert_eq!(Suit::from_str(""), Suit::NONE);
    assert_eq!(Suit::from_str("Club"), Suit::NONE);
    assert_eq!(Suit::from_str("Clubss"), Suit::NONE);
    assert_eq!(Suit::from_str("Joker"), Suit::NONE);
}

#[test]
fn suit_index_follows_the_suit_order() {
    for (i, suit) in SUITS.iter().enumerate() {
        assert_eq!(suit.index(), i);
    }
    assert!(Suit::NONE < Suit::Clubs && Suit::Spades < Suit::Wild);
}

#[test]
fn rank_labels_are_as_written() {
    let labels = [
        "NONE", "Two", "Three", "Four", "Five", "Six", "Seven", "Eight", "Nine", "Ten", "J", "Q",
        "K", "A",
    ];
    for (rank, label) in RANKS.iter().zip(labels.iter()) {
        assert_eq!(rank.to_str(), *label);
    }
}

#[test]
fn rank_round_trips_through_its_label() {
    for rank in RANKS.iter().skip(1) {
        assert_eq!(Rank::from_str(rank.to_str()), Ok(*rank));
    }
}

#[test]
fn unknown_rank_label_is_rejected() {
    assert_eq!(Rank::from_str("NONE"), Err("Invalid rank"));
    assert_eq!(Rank::from_str("Jack"), Err("Invalid rank"));
    assert_eq!(Rank::from_str("two"), Err("Invalid rank"));
    assert_eq!(Rank::from_str(""), Err("Invalid rank"));
    assert_eq!(Rank::from_str("11"), Err("Invalid rank"));
}

#[test]
fn rank_numbers_run_from_two_to_fourteen() {
    assert_eq!(Rank::NONE.to_int(), 0);
    for (i, rank) in RANKS.iter().enumerate().skip(1) {
        assert_eq!(rank.to_int(), i + 1);
        assert_eq!(Rank::from_int(i + 1), *rank);
        assert_eq!(Rank::from(i + 1), *rank);
    }
}

#[test]
fn one_and_fourteen_both_stand_for_the_ace() {
    assert_eq!(Rank::from_int(1), Rank::Ace);
    assert_eq!(Rank::from_int(14), Rank::Ace);
}

#[test]
fn numbers_out_of_range_stand_for_no_rank() {
    assert_eq!(Rank::from_int(0), Rank::NONE);
    assert_eq!(Rank::from_int(15), Rank::NONE);
    assert_eq!(Rank::from_int(usize::MAX), Rank::NONE);
}

#[test]
fn next_cycles_from_ace_to_two() {
    assert_eq!(Rank::Two.next(), Rank::Three);
    assert_eq!(Rank::Ten.next(), Rank::Jack);
    assert_eq!(Rank::King.next(), Rank::Ace);
    assert_eq!(Rank::Ace.next(), Rank::Two);
    assert_eq!(Rank::NONE.next(), Rank::NONE);
}

#[test]
fn prev_cycles_from_two_to_ace() {
    assert_eq!(Rank::Three.prev(), Rank::Two);
    assert_eq!(Rank::Jack.prev(), Rank::Ten);
    assert_eq!(Rank::Ace.prev(), Rank::King);
    assert_eq!(Rank::Two.prev(), Rank::Ace);
    assert_eq!(Rank::NONE.prev(), Rank::NONE);
}

#[test]
fn next_and_prev_undo_each_other() {
    for rank in RANKS.iter() {
        assert_eq!(rank.next().prev(), *rank);
        assert_eq!(rank.prev().next(), *rank);
    }
}

#[test]
fn ranks_are_ordered_from_two_to_ace() {
    for pair in RANKS.windows(2) {
        assert!(pair[0] < pair[1]);
    }
}

#[test]
fn face_cards_are_shown_in_full() {
    assert_eq!(Rank::Jack.to_string(), "Jack");
    assert_eq!(Rank::Queen.to_string(), "Queen");
    assert_eq!(Rank::King.to_string(), "King");
    assert_eq!(Rank::Ace.to_string(), "Ace");
    assert_eq!(Rank::Two.to_string(), "Two");
    assert_eq!(Rank::Ten.to_string(), "Ten");
    assert_eq!(Rank::NONE.to_string(), "NONE");
}

#[test]
fn card_text_joins_rank_and_suit() {
    let card = Card { rank: Rank::Ace, suit: Suit::Wild };
    assert_eq!(card.to_str(), "A of Wild");
    let card = Card { rank: Rank::Four, suit: Suit::Clubs };
    assert_eq!(card.to_str(), "Four of Clubs");
    let card = Card { rank: Rank::NONE, suit: Suit::NONE };
    assert_eq!(card.to_str(), "NONE of NONE");
}

#[test]
fn card_next_and_prev_keep_the_suit() {
    let card = Card { rank: Rank::Ace, suit: Suit::Hearts };
    assert_eq!(card.next(), Card { rank: Rank::Two, suit: Suit::Hearts });
    assert_eq!(card.prev(), Card { rank: Rank::King, suit: Suit::Hearts });
    let card = Card { rank: Rank::NONE, suit: Suit::Wild };
    assert_eq!(card.next(), card);
    assert_eq!(card.prev(), card);
}

#[test]
fn cards_are_equal_by_value() {
    let a = Card { rank: Rank::Nine, suit: Suit::Spades };
    let b = Card { rank: Rank::Nine, suit: Suit::Spades };
    assert_eq!(a, b);
    assert_ne!(a, Card { rank: Rank::Nine, suit: Suit::Wild });
    assert_ne!(a, Card { rank: Rank::Ten, suit: Suit::Spades });
}

#[test]
fn card_from_parts_reads_number_and_label() {
    assert_eq!(Card::from_parts(12, "Hearts"), Card { rank: Rank::Queen, suit: Suit::Hearts });
    assert_eq!(Card::from_parts(1, "Wild"), Card { rank: Rank::Ace, suit: Suit::Wild });
    assert_eq!(Card::from_parts(99, "nothing"), Card { rank: Rank::NONE, suit: Suit::NONE });
}

#[test]
fn card_round_trips_through_its_parts() {
    for rank in RANKS.iter() {
        for suit in SUITS.iter() {
            let card = Card { rank: *rank, suit: *suit };
            let (number, label) = card.to_parts();
            assert_eq!(number, rank.to_int());
            assert_eq!(label, suit.to_str());
            assert_eq!(Card::from_parts(number, label), card);
        }
    }
}

#[test]
fn str_eq_compares_character_by_character() {
    assert!(str_eq("", ""));
    assert!(str_eq("Wild", "Wild"));
    assert!(!str_eq("Wild", "Wilt"));
    assert!(!str_eq("Wild", "Wil"));
    assert!(!str_eq("Wil", "Wild"));
    assert!(str_eq("héllo", "héllo"));
    assert!(!str_eq("héllo", "hello"));
}

#[test]
fn a_missing_suit_label_is_refused() {
    assert_eq!(Suit::from_entry(None), Err("Invalid suit object"));
    assert_eq!(Suit::from_entry(Some("Hearts")), Ok(Suit::Hearts));
    assert_eq!(Suit::from_entry(Some("hearts")), Ok(Suit::NONE));
}

#[test]
fn a_missing_rank_number_is_refused() {
    assert_eq!(Rank::from_entry(None), Err("Invalid rank object"));
    assert_eq!(Rank::from_entry(Some(2)), Ok(Rank::Two));
    assert_eq!(Rank::from_entry(Some(14)), Ok(Rank::Ace));
}
