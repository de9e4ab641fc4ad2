use carder::text::{digit_str, push_decimal};
use carder::{Card, Suit};

fn lines_of(card: &Card) -> Vec<String> {
    card.single_card_list().to_vec()
}

#[test]
fn suits_have_their_glyphs() {
    assert_eq!(Suit::Clubs.glyph(), '♧');
    assert_eq!(Suit::Diamonds.glyph(), '♢');
    assert_eq!(Suit::Hearts.glyph(), '♡');
    assert_eq!(Suit::Spades.glyph(), '♤');
    assert_eq!(Suit::Clubs.glyph_str(), "♧");
    assert_eq!(Suit::Diamonds.glyph_str(), "♢");
    assert_eq!(Suit::Hearts.glyph_str(), "♡");
    assert_eq!(Suit::Spades.glyph_str(), "♤");
}

#[test]
fn card_new_keeps_rank_and_suit() {
    let card = Card::new(11, Suit::Hearts);
    assert_eq!(card.rank, 11);
    assert_eq!(card.suit, Suit::Hearts);
    let odd = Card::new(0, Suit::Clubs);
    assert_eq!(odd.rank, 0);
}

#[test]
fn two_of_diamonds_is_drawn_row_by_row() {
    let lines = lines_of(&Card::new(2, Suit::Diamonds));
    assert_eq!(
        lines,
        vec![
            "┌─────────┐",
            "│2        │",
            "│         │",
            "│         │",
            "│    ♢    │",
            "│         │",
            "│         │",
            "│        2│",
            "└─────────┘",
        ]
    );
}

#[test]
fn king_of_spades_is_drawn_row_by_row() {
    let lines = lines_of(&Card::new(13, Suit::Spades));
    assert_eq!(
        lines,
        vec![
            "┌─────────┐",
            "│13       │",
            "│         │",
            "│         │",
            "│    ♤    │",
            "│         │",
            "│         │",
            "│       13│",
            "└─────────┘",
        ]
    );
}

#[test]
fn ten_is_the_first_rank_without_padding() {
    let nine = lines_of(&Card::new(9, Suit::Clubs));
    assert_eq!(nine[1], "│9        │");
    assert_eq!(nine[7], "│        9│");
    let ten = lines_of(&Card::new(10, Suit::Clubs));
    assert_eq!(ten[1], "│10       │");
    assert_eq!(ten[7], "│       10│");
}

#[test]
fn every_row_is_eleven_characters_wide() {
    for suit in [Suit::Clubs, Suit::Diamonds, Suit::Hearts, Suit::Spades] {
        for rank in 0..100 {
            let lines = lines_of(&Card::new(rank, suit));
            assert_eq!(lines.len(), 9);
            for line in &lines {
                assert_eq!(line.chars().count(), 11);
            }
        }
    }
}

#[test]
fn a_rank_of_three_digits_widens_its_two_rows() {
    let lines = lines_of(&Card::new(100, Suit::Hearts));
    assert_eq!(lines[1], "│100       │");
    assert_eq!(lines[7], "│       100│");
    assert_eq!(lines[1].chars().count(), 12);
    assert_eq!(lines[0].chars().count(), 11);
}

#[test]
fn card_block_is_its_rows_joined_by_line_feeds() {
    let card = Card::new(2, Suit::Diamonds);
    let expected = "┌─────────┐\n│2        │\n│         │\n│         │\n│    ♢    │\n│         │\n│         │\n│        2│\n└─────────┘";
    assert_eq!(card.render_block(), expected);
    assert_eq!(card.render_block(), lines_of(&card).join("\n"));
    assert_eq!(card.render_block().chars().count(), 107);
    assert_eq!(card.render_block().matches('\n').count(), 8);
    assert!(card.render_block().ends_with("└─────────┘"));
}

#[test]
fn card_block_of_a_two_digit_rank_has_the_same_shape() {
    let card = Card::new(13, Suit::Spades);
    let block = card.render_block();
    assert_eq!(block, lines_of(&card).join("\n"));
    assert_eq!(block.chars().count(), 107);
    let chars: Vec<char> = block.chars().collect();
    for row in 0..9 {
        let fragment: String = chars[12 * row..12 * row + 11].iter().collect();
        assert_eq!(fragment, lines_of(&card)[row]);
        if row < 8 {
            assert_eq!(chars[12 * row + 11], '\n');
        }
    }
}

#[test]
fn digits_are_written_as_text() {
    let expected = ["0", "1", "2", "3", "4", "5", "6", "7", "8", "9"];
    for d in 0..10u32 {
        assert_eq!(digit_str(d), expected[d as usize]);
    }
}

#[test]
fn numbers_are_written_in_decimal() {
    for n in [0u32, 7, 9, 10, 13, 99, 100, 101, 1000, 4096, 4294967295] {
        let mut text = String::from("x");
        push_decimal(&mut text, n);
        assert_eq!(text, format!("x{}", n));
    }
    let mut text = String::new();
    push_decimal(&mut text, 1203);
    assert_eq!(text, "1203");
}
