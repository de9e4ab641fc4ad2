use carder::{Card, Deck, DeckType, Hand, Suit};

#[test]
fn new_hand_is_empty() {
    let hand = Hand::new();
    assert_eq!(hand.count(), 0);
    assert!(hand.cards().is_empty());
}

#[test]
fn add_card_raises_the_count_by_one() {
    let mut hand = Hand::new();
    for n in 0..5u32 {
        assert_eq!(hand.count(), n as usize);
        hand.add_card(Card::new(n + 1, Suit::Hearts));
        assert_eq!(hand.count(), n as usize + 1);
    }
}

#[test]
fn add_card_puts_the_card_at_the_end() {
    let mut hand = Hand::new();
    let first = Card::new(2, Suit::Diamonds);
    let second = Card::new(13, Suit::Spades);
    hand.add_card(first);
    assert_eq!(hand.cards(), &vec![first]);
    hand.add_card(second);
    assert_eq!(hand.cards(), &vec![first, second]);
}

#[test]
fn a_hand_takes_the_same_card_twice() {
    let mut hand = Hand::new();
    let card = Card::new(1, Suit::Clubs);
    hand.add_card(card);
    hand.add_card(card);
    assert_eq!(hand.count(), 2);
    assert_eq!(hand.cards(), &vec![card, card]);
}

#[test]
fn empty_hand_is_drawn_as_nine_empty_rows() {
    assert_eq!(Hand::new().render_block(), "\n\n\n\n\n\n\n\n\n");
}

#[test]
fn hand_of_one_card_is_drawn_without_a_gap() {
    let mut hand = Hand::new();
    hand.add_card(Card::new(2, Suit::Diamonds));
    let expected = "┌─────────┐\n│2        │\n│         │\n│         │\n│    ♢    │\n│         │\n│         │\n│        2│\n└─────────┘\n";
    assert_eq!(hand.render_block(), expected);
}

#[test]
fn hand_of_two_cards_is_drawn_side_by_side() {
    let mut hand = Hand::new();
    hand.add_card(Card::new(2, Suit::Diamonds));
    hand.add_card(Card::new(13, Suit::Spades));
    let rows = [
        "┌─────────┐  ┌─────────┐",
        "│2        │  │13       │",
        "│         │  │         │",
        "│         │  │         │",
        "│    ♢    │  │    ♤    │",
        "│         │  │         │",
        "│         │  │         │",
        "│        2│  │       13│",
        "└─────────┘  └─────────┘",
    ];
    let mut expected = String::new();
    for row in rows {
        expected.push_str(row);
        expected.push('\n');
    }
    assert_eq!(hand.render_block(), expected);
}

#[test]
fn hand_of_three_cards_has_two_gaps_in_each_row() {
    let mut hand = Hand::new();
    hand.add_card(Card::new(1, Suit::Clubs));
    hand.add_card(Card::new(10, Suit::Hearts));
    hand.add_card(Card::new(7, Suit::Spades));
    let block = hand.render_block();
    let rows: Vec<&str> = block.lines().collect();
    assert_eq!(rows[1], "│1        │  │10       │  │7        │");
    assert_eq!(rows[4], "│    ♧    │  │    ♡    │  │    ♤    │");
    assert_eq!(rows[7], "│        1│  │       10│  │        7│");
    assert_eq!(block.matches('\n').count(), 9);
    assert_eq!(block.chars().count(), 9 * (13 * 3 - 2 + 1));
}

#[test]
fn every_row_of_a_hand_holds_one_fragment_per_card() {
    let mut deck = Deck::new(DeckType::Poker);
    let mut hand = Hand::new();
    for n in 1..=7usize {
        let card = deck.draw();
        hand.add_card(card);
        let block = hand.render_block();
        assert!(block.ends_with('\n'));
        let rows: Vec<&str> = block.lines().collect();
        assert_eq!(rows.len(), 9);
        for (r, row) in rows.iter().enumerate() {
            let chars: Vec<char> = row.chars().collect();
            assert_eq!(chars.len(), 13 * n - 2);
            for (k, held) in hand.cards().iter().enumerate() {
                let fragment: String = chars[13 * k..13 * k + 11].iter().collect();
                assert_eq!(fragment, held.single_card_list()[r]);
                if k + 1 < n {
                    assert_eq!(chars[13 * k + 11], ' ');
                    assert_eq!(chars[13 * k + 12], ' ');
                }
            }
        }
    }
}

#[test]
fn dealing_moves_cards_from_deck_to_hand() {
    let mut deck = Deck::new(DeckType::Italian);
    let mut hand = Hand::new();
    for _ in 0..3 {
        let card = deck.draw();
        hand.add_card(card);
    }
    assert_eq!(deck.pile.len(), 37);
    assert_eq!(hand.count(), 3);
    assert_eq!(
        hand.cards(),
        &vec![
            Card { rank: 13, suit: Suit::Spades },
            Card { rank: 12, suit: Suit::Spades },
            Card { rank: 11, suit: Suit::Spades },
        ]
    );
}
