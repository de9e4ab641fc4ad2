//! A hand: the cards a player holds, in the order they were dealt, and its
//! drawing with the cards side by side.

use vstd::prelude::*;
use crate::card::{lemma_line_width, Card};
use crate::text::repeat;

verus! {

/// The gap between two neighbouring cards in the drawing of a hand: two
/// spaces.
pub open spec fn card_gap() -> Seq<char> {
    repeat(' ', 2)
}

/// One row of the drawing of several cards side by side: that row of each
/// card in turn, with the gap between neighbours. Nothing follows the last
/// card, and the row of no cards is empty.
pub open spec fn hand_row(cards: Seq<Card>, row: int) -> Seq<char>
    decreases cards.len(),
{
    if cards.len() == 0 {
        Seq::<char>::empty()
    } else if cards.len() == 1 {
        cards.last().line(row)
    } else {
        hand_row(cards.drop_last(), row) + card_gap() + cards.last().line(row)
    }
}

/// How wide a row of the drawing of `n` cards is when every card is eleven
/// characters wide: thirteen characters for each card but the last, eleven
/// for the last.
pub open spec fn hand_row_width(n: nat) -> nat {
    if n == 0 {
        0
    } else {
        (13 * n - 2) as nat
    }
}

/// The first `rows` rows of the drawing of several cards side by side, each
/// followed by a line feed.
pub open spec fn hand_block_upto(cards: Seq<Card>, rows: nat) -> Seq<char>
    decreases rows,
{
    if rows == 0 {
        Seq::<char>::empty()
    } else {
        hand_block_upto(cards, (rows - 1) as nat) + hand_row(cards, rows - 1) + seq!['\n']
    }
}

/// The drawing of several cards side by side: nine rows, each followed by a
/// line feed.
pub open spec fn hand_block(cards: Seq<Card>) -> Seq<char> {
    hand_block_upto(cards, 9)
}

/// The cards a player holds. The hand keeps no count beside them: its count
/// is the number of cards it holds.
pub struct Hand {
    cards: Vec<Card>,
}

impl View for Hand {
    type V = Seq<Card>;

    /// The cards of the hand, the first dealt first.
    closed spec fn view(&self) -> Seq<Card> {
        self.cards@
    }
}

impl Hand {
    /// The number of cards the hand reports: the length of its sequence of
    /// cards.
    pub open spec fn spec_count(self) -> nat {
        self@.len()
    }

    /// Makes an empty hand, with a count of zero.
    pub fn new() -> (hand: Hand)
        ensures
            hand@ == Seq::<Card>::empty(),
            hand.spec_count() == 0,
    {
        Hand { cards: Vec::new() }
    }

    /// Adds a card at the end of the hand, which raises the count by one. A
    /// card the hand already holds is added all the same.
    pub fn add_card(&mut self, card: Card)
        ensures
            final(self)@ == old(self)@.push(card),
            final(self).spec_count() == old(self).spec_count() + 1,
    {
        self.cards.push(card);
    }

    /// The number of cards the hand holds.
    pub fn count(&self) -> (n: usize)
        ensures
            n == self.spec_count(),
    {
        self.cards.len()
    }

    /// The cards of the hand, the first dealt first.
    pub fn cards(&self) -> (cards: &Vec<Card>)
        ensures
            cards@ == self@,
    {
        &self.cards
    }

    /// Draws the hand: its cards side by side with a gap of two spaces
    /// between neighbours, as nine rows of text that each end in a line feed.
    pub fn render_block(&self) -> (text: String)
        ensures
            text@ == hand_block(self@),
    {
        let n: usize = self.cards.len();
        let mut drawn: Vec<[String; 9]> = Vec::new();
        for k in 0..n
            invariant
                n == self.cards@.len(),
                drawn@.len() == k,
                forall|j: int, row: int|
                    0 <= j < k && 0 <= row < 9 ==> (#[trigger] drawn@[j]@[row])@
                        == self.cards@[j].line(row),
        {
            drawn.push(self.cards[k].single_card_list());
        }
        let mut text: String = String::new();
        for row in 0usize..9
            invariant
                n == self.cards@.len(),
                drawn@.len() == n,
                forall|j: int, row: int|
                    0 <= j < n && 0 <= row < 9 ==> (#[trigger] drawn@[j]@[row])@
                        == self.cards@[j].line(row),
                text@ == hand_block_upto(self.cards@, row as nat),
        {
            let ghost above: Seq<char> = text@;
            for k in 0..n
                invariant
                    row < 9,
                    n == self.cards@.len(),
                    drawn@.len() == n,
                    forall|j: int, row: int|
                        0 <= j < n && 0 <= row < 9 ==> (#[trigger] drawn@[j]@[row])@
                            == self.cards@[j].line(row),
                    text@ == above + hand_row(self.cards@.take(k as int), row as int),
            {
                let ghost before: Seq<char> = hand_row(self.cards@.take(k as int), row as int);
                if k > 0 {
                    text.append("  ");
                }
                text.append(drawn[k][row].as_str());
                proof {
                    reveal_strlit("  ");
                    let upto: Seq<Card> = self.cards@.take(k + 1);
                    let line: Seq<char> = self.cards@[k as int].line(row as int);
                    assert(upto.drop_last() =~= self.cards@.take(k as int));
                    assert(upto.last() == self.cards@[k as int]);
                    assert("  "@ =~= card_gap());
                    assert(drawn@[k as int]@[row as int]@ == line);
                    if k > 0 {
                        assert(text@ =~= above + (before + card_gap() + line));
                    } else {
                        assert(before =~= Seq::<char>::empty());
                        assert(text@ =~= above + line);
                    }
                }
            }
            text.append("\n");
            proof {
                reveal_strlit("\n");
                assert(self.cards@.take(n as int) =~= self.cards@);
                assert("\n"@ =~= seq!['\n']);
            }
        }
        text
    }
}

/// Whether every card of a sequence has a rank of at most two digits.
pub open spec fn ranks_fit(cards: Seq<Card>) -> bool {
    forall|k: int| 0 <= k < cards.len() ==> (#[trigger] cards[k]).rank < 100
}

/// A row of the drawing of a hand holds one fragment for each card: card
/// `k`'s row, eleven characters wide, starts at character `13 * k`, and the
/// gap of two spaces stands between it and the next card's. Nothing follows
/// the last card.
pub proof fn lemma_hand_row_fragments(cards: Seq<Card>, row: int, k: int)
    requires
        ranks_fit(cards),
        0 <= row < 9,
    ensures
        hand_row(cards, row).len() == hand_row_width(cards.len()),
        0 <= k < cards.len() ==> hand_row(cards, row).subrange(13 * k, 13 * k + 11)
            == cards[k].line(row),
        0 <= k < cards.len() - 1 ==> hand_row(cards, row).subrange(13 * k + 11, 13 * k + 13)
            == card_gap(),
    decreases cards.len(),
{
    if cards.len() > 0 {
        let front = cards.drop_last();
        let whole = hand_row(cards, row);
        lemma_hand_row_fragments(front, row, k);
        lemma_line_width(cards.last(), row);
        if cards.len() == 1 {
            if k == 0 {
                assert(whole.subrange(0, 11) =~= cards[0].line(row));
            }
        } else if 0 <= k < cards.len() - 2 {
            assert(whole.subrange(13 * k, 13 * k + 11) =~= hand_row(front, row).subrange(
                13 * k,
                13 * k + 11,
            ));
            assert(whole.subrange(13 * k + 11, 13 * k + 13) =~= hand_row(front, row).subrange(
                13 * k + 11,
                13 * k + 13,
            ));
        } else if k == cards.len() - 2 {
            assert(whole.subrange(13 * k, 13 * k + 11) =~= hand_row(front, row).subrange(
                13 * k,
                13 * k + 11,
            ));
            assert(whole.subrange(13 * k + 11, 13 * k + 13) =~= card_gap());
        } else if k == cards.len() - 1 {
            assert(whole.subrange(13 * k, 13 * k + 11) =~= cards[k].line(row));
        }
    }
}

/// The drawing of a hand is nine rows of equal width, each followed by a
/// line feed: with `w` the width of a row and its line feed, row `row`
/// starts at character `row * w`.
pub proof fn lemma_hand_block_rows(cards: Seq<Card>, row: int)
    requires
        ranks_fit(cards),
        0 <= row < 9,
    ensures
        ({
            let w = hand_row_width(cards.len()) + 1;
            &&& hand_block(cards).len() == 9 * w
            &&& hand_block(cards).subrange(row * w, row * w + w - 1) == hand_row(cards, row)
            &&& hand_block(cards)[row * w + w - 1] == '\n'
        }),
{
    lemma_hand_block_upto(cards, 9, row);
}

/// The first `rows` rows of the drawing of a hand take the same number of
/// characters each, and each of them stands where it was put.
proof fn lemma_hand_block_upto(cards: Seq<Card>, rows: nat, row: int)
    requires
        ranks_fit(cards),
        rows <= 9,
    ensures
        ({
            let w = hand_row_width(cards.len()) + 1;
            &&& hand_block_upto(cards, rows).len() == rows * w
            &&& 0 <= row < rows ==> hand_block_upto(cards, rows).subrange(
                row * w,
                row * w + w - 1,
            ) == hand_row(cards, row) && hand_block_upto(cards, rows)[row * w + w - 1] == '\n'
        }),
    decreases rows,
{
    let w = hand_row_width(cards.len()) + 1;
    if rows > 0 {
        let above = hand_block_upto(cards, (rows - 1) as nat);
        let whole = hand_block_upto(cards, rows);
        lemma_hand_block_upto(cards, (rows - 1) as nat, row);
        lemma_hand_row_fragments(cards, rows - 1, 0);
        assert(rows * w == (rows - 1) * w + w) by (nonlinear_arith);
        if 0 <= row < rows - 1 {
            assert(row * w + w <= (rows - 1) * w) by (nonlinear_arith)
                requires
                    0 <= row < rows - 1,
                    w >= 0,
            ;
            assert(whole.subrange(row * w, row * w + w - 1) =~= above.subrange(
                row * w,
                row * w + w - 1,
            ));
        } else if row == rows - 1 {
            assert(whole.subrange(row * w, row * w + w - 1) =~= hand_row(cards, row));
        }
    } else {
        assert(rows * w == 0) by (nonlinear_arith)
            requires
                rows == 0,
        ;
    }
}

} // verus!
