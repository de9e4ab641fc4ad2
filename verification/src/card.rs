//! A single card and its drawing as a box of nine rows of text.

use vstd::prelude::*;
use crate::suit::Suit;
use crate::text::{decimal, lemma_decimal_len, push_decimal, repeat};

verus! {

/// A card: a rank and a suit.
///
/// Ranks run from 1 (the ace) to 13 (the king). Nothing enforces that range;
/// a card of any rank can be made and drawn, only its box grows wider once
/// the rank needs three digits.
#[derive(Clone, Copy, Debug, PartialEq, Eq, Structural)]
pub struct Card {
    pub rank: u32,
    pub suit: Suit,
}

/// The space that follows a one-digit rank so that it fills the same two
/// columns as a two-digit one.
pub open spec fn rank_padding(rank: nat) -> Seq<char> {
    if rank >= 10 {
        Seq::<char>::empty()
    } else {
        seq![' ']
    }
}

/// The top edge of the box.
pub open spec fn top_border() -> Seq<char> {
    seq!['┌'] + repeat('─', 9) + seq!['┐']
}

/// The bottom edge of the box.
pub open spec fn bottom_border() -> Seq<char> {
    seq!['└'] + repeat('─', 9) + seq!['┘']
}

/// A row of the box with nothing between its side edges.
pub open spec fn blank_row() -> Seq<char> {
    seq!['│'] + repeat(' ', 9) + seq!['│']
}

/// The row that shows the rank at the left edge.
pub open spec fn upper_rank_row(rank: nat) -> Seq<char> {
    seq!['│'] + decimal(rank) + rank_padding(rank) + repeat(' ', 7) + seq!['│']
}

/// The row that shows the rank at the right edge.
pub open spec fn lower_rank_row(rank: nat) -> Seq<char> {
    seq!['│'] + repeat(' ', 7) + rank_padding(rank) + decimal(rank) + seq!['│']
}

/// The row that shows the suit's glyph in the middle column.
pub open spec fn suit_row(suit: Suit) -> Seq<char> {
    seq!['│'] + repeat(' ', 4) + seq![suit.spec_glyph()] + repeat(' ', 4) + seq!['│']
}

impl Card {
    /// One row of the card's drawing. Rows are counted from zero at the top.
    pub open spec fn line(self, row: int) -> Seq<char> {
        if row == 0 {
            top_border()
        } else if row == 1 {
            upper_rank_row(self.rank as nat)
        } else if row == 4 {
            suit_row(self.suit)
        } else if row == 7 {
            lower_rank_row(self.rank as nat)
        } else if row == 8 {
            bottom_border()
        } else {
            blank_row()
        }
    }

    /// The card's drawing as one text: its nine rows with a line feed
    /// between each row and the next. The text ends with the bottom edge.
    pub open spec fn block(self) -> Seq<char> {
        self.block_upto(9)
    }

    /// The first `rows` rows of the card's drawing, with a line feed between
    /// each row and the next.
    pub open spec fn block_upto(self, rows: nat) -> Seq<char>
        decreases rows,
    {
        if rows == 0 {
            Seq::<char>::empty()
        } else if rows == 1 {
            self.line(0)
        } else {
            self.block_upto((rows - 1) as nat) + seq!['\n'] + self.line(rows - 1)
        }
    }

    /// Makes a card. The rank is taken as given.
    pub fn new(rank: u32, suit: Suit) -> (card: Card)
        ensures
            card.rank == rank,
            card.suit == suit,
    {
        Card { rank, suit }
    }

    /// Draws the card as nine rows of text.
    pub fn single_card_list(&self) -> (lines: [String; 9])
        ensures
            forall|row: int| 0 <= row < 9 ==> (#[trigger] lines@[row])@ == self.line(row),
    {
        let top: String = String::from_str("┌─────────┐");
        let mut upper: String = String::from_str("│");
        push_decimal(&mut upper, self.rank);
        if self.rank < 10 {
            upper.append(" ");
        }
        upper.append("       │");
        let blank: &str = "│         │";
        let mut middle: String = String::from_str("│    ");
        middle.append(self.suit.glyph_str());
        middle.append("    │");
        let mut lower: String = String::from_str("│       ");
        if self.rank < 10 {
            lower.append(" ");
        }
        push_decimal(&mut lower, self.rank);
        lower.append("│");
        let bottom: String = String::from_str("└─────────┘");
        proof {
            reveal_strlit("┌─────────┐");
            reveal_strlit("│");
            reveal_strlit(" ");
            reveal_strlit("       │");
            reveal_strlit("│         │");
            reveal_strlit("│    ");
            reveal_strlit("    │");
            reveal_strlit("│       ");
            reveal_strlit("└─────────┘");
            assert(top@ =~= top_border());
            assert(upper@ =~= upper_rank_row(self.rank as nat));
            assert(blank@ =~= blank_row());
            assert(middle@ =~= suit_row(self.suit));
            assert(lower@ =~= lower_rank_row(self.rank as nat));
            assert(bottom@ =~= bottom_border());
        }
        [
            top,
            upper,
            String::from_str(blank),
            String::from_str(blank),
            middle,
            String::from_str(blank),
            String::from_str(blank),
            lower,
            bottom,
        ]
    }

    /// Draws the card as one text: its nine rows with a line feed between
    /// each row and the next.
    pub fn render_block(&self) -> (text: String)
        ensures
            text@ == self.block(),
    {
        let lines: [String; 9] = self.single_card_list();
        let mut text: String = String::new();
        for row in 0usize..9
            invariant
                forall|r: int| 0 <= r < 9 ==> (#[trigger] lines@[r])@ == self.line(r),
                text@ == self.block_upto(row as nat),
        {
            if row > 0 {
                text.append("\n");
            }
            text.append(lines[row].as_str());
            proof {
                reveal_strlit("\n");
                assert("\n"@ =~= seq!['\n']);
                assert(text@ =~= self.block_upto((row + 1) as nat));
            }
        }
        text
    }
}

/// Every row of a card's drawing is eleven characters wide, whether the rank
/// takes one digit or two.
pub proof fn lemma_line_width(card: Card, row: int)
    requires
        card.rank < 100,
        0 <= row < 9,
    ensures
        card.line(row).len() == 11,
{
    lemma_decimal_len(card.rank as nat);
}

/// The drawing of a card as one text is nine rows of eleven characters with
/// eight line feeds between them: row `row` starts at character `12 * row`,
/// and a line feed follows every row but the last.
pub proof fn lemma_block_rows(card: Card, row: int)
    requires
        card.rank < 100,
        0 <= row < 9,
    ensures
        card.block().len() == 107,
        card.block().subrange(12 * row, 12 * row + 11) == card.line(row),
        row < 8 ==> card.block()[12 * row + 11] == '\n',
{
    lemma_block_upto(card, 9, row);
}

/// The first `rows` rows of a card's drawing take twelve characters each but
/// the last, which takes eleven, and each of them stands where it was put.
proof fn lemma_block_upto(card: Card, rows: nat, row: int)
    requires
        card.rank < 100,
        1 <= rows <= 9,
    ensures
        card.block_upto(rows).len() == 12 * rows - 1,
        0 <= row < rows ==> card.block_upto(rows).subrange(12 * row, 12 * row + 11) == card.line(
            row,
        ),
        0 <= row < rows - 1 ==> card.block_upto(rows)[12 * row + 11] == '\n',
    decreases rows,
{
    lemma_line_width(card, rows - 1);
    if rows > 1 {
        let above = card.block_upto((rows - 1) as nat);
        lemma_block_upto(card, (rows - 1) as nat, row);
        if 0 <= row < rows - 1 {
            assert(card.block_upto(rows).subrange(12 * row, 12 * row + 11) =~= above.subrange(
                12 * row,
                12 * row + 11,
            ));
        } else if row == rows - 1 {
            assert(card.block_upto(rows).subrange(12 * row, 12 * row + 11) =~= card.line(row));
        }
    } else if row == 0 {
        assert(card.block_upto(rows).subrange(0, 11) =~= card.line(0));
    }
}

} // verus!
