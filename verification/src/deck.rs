//! A deck: an ordered pile of cards of one of two styles.

use vstd::prelude::*;
use rand::rngs::ThreadRng;
use rand::seq::SliceRandom;
use crate::card::Card;
use crate::suit::Suit;

verus! {

/// The style of a deck: which ranks it holds.
#[derive(Clone, Copy, Debug, PartialEq, Eq, Structural)]
pub enum DeckType {
    /// All thirteen ranks of every suit.
    Poker,
    /// Every suit without the ranks 8, 9 and 10.
    Italian,
}

impl DeckType {
    /// Whether a deck of this style leaves a rank out.
    pub open spec fn spec_excludes(self, rank: nat) -> bool {
        self == DeckType::Italian && 8 <= rank <= 10
    }

    /// Whether a deck of this style holds a rank.
    pub open spec fn holds(self, rank: nat) -> bool {
        1 <= rank <= 13 && !self.spec_excludes(rank)
    }

    /// How many ranks a deck of this style holds of each suit.
    pub open spec fn ranks_per_suit(self) -> nat {
        match self {
            DeckType::Poker => 13,
            DeckType::Italian => 10,
        }
    }

    /// How many cards a full deck of this style holds.
    pub open spec fn size(self) -> nat {
        4 * self.ranks_per_suit()
    }

    /// How many of the ranks below `rank` a deck of this style holds: the
    /// place of `rank` among the cards of one suit, counted from zero.
    pub open spec fn place_of(self, rank: nat) -> nat
        recommends
            1 <= rank <= 14,
    {
        match self {
            DeckType::Poker => (rank - 1) as nat,
            DeckType::Italian => if rank <= 8 {
                (rank - 1) as nat
            } else if rank <= 10 {
                7
            } else {
                (rank - 4) as nat
            },
        }
    }

    /// The rank at a place among the cards of one suit.
    pub open spec fn rank_at(self, place: nat) -> nat
        recommends
            place < self.ranks_per_suit(),
    {
        match self {
            DeckType::Poker => place + 1,
            DeckType::Italian => if place < 7 {
                place + 1
            } else {
                place + 4
            },
        }
    }

    /// Whether a deck of this style leaves a rank out.
    pub fn excludes(self, rank: u32) -> (out: bool)
        ensures
            out == self.spec_excludes(rank as nat),
    {
        match self {
            DeckType::Poker => false,
            DeckType::Italian => 8 <= rank && rank <= 10,
        }
    }
}

/// The card at a position of a full, unshuffled deck: suits follow each
/// other in their fixed order, and within a suit the ranks rise.
pub open spec fn full_pile_card(style: DeckType, i: int) -> Card {
    Card {
        rank: style.rank_at((i % (style.ranks_per_suit() as int)) as nat) as u32,
        suit: Suit::spec_from_index((i / (style.ranks_per_suit() as int)) as nat),
    }
}

/// The full, unshuffled deck of a style.
pub open spec fn full_pile(style: DeckType) -> Seq<Card> {
    Seq::new(style.size(), |i: int| full_pile_card(style, i))
}

/// The handle to the random generator that `rand` keeps for each thread.
/// Nothing of its state is visible here.
#[verifier::external_type_specification]
#[verifier::external_body]
pub struct ExThreadRng(rand::rngs::ThreadRng);

/// `rand::thread_rng` hands out the calling thread's generator, seeding it
/// from the operating system at its first use on that thread. Nothing is
/// claimed of the handle. (Where the operating system can give no seed, that
/// first use does not return.)
pub assume_specification[ rand::thread_rng ]() -> (rng: ThreadRng)
;

/// `SliceRandom::shuffle` of `rand`, on the cards of a pile. It walks the
/// slice from its end and swaps each element with one at a random position
/// not after it. It only ever swaps, so what is claimed is what holds of
/// every outcome: the pile holds the same cards, each as often as before.
/// Nothing is claimed of their order.
#[verifier::external_body]
fn shuffle_pile(pile: &mut Vec<Card>, rng: &mut ThreadRng)
    ensures
        final(pile)@.to_multiset() == old(pile)@.to_multiset(),
{
    pile.shuffle(rng);
}

/// Why a card could not be drawn.
#[derive(Clone, Copy, Debug, PartialEq, Eq, Structural)]
pub enum DrawError {
    /// The deck holds no card.
    EmptyDeck,
}

/// A deck of cards. The last card of the pile is the one drawn next.
pub struct Deck {
    pub pile: Vec<Card>,
    pub style: DeckType,
}

impl Deck {
    /// Makes the full, unshuffled deck of a style.
    pub fn new(style: DeckType) -> (deck: Deck)
        ensures
            deck.pile@ == full_pile(style),
            deck.style == style,
    {
        Deck { pile: Deck::init_cards(&style), style }
    }

    /// Puts the cards of the deck in a random order. The deck holds the
    /// same cards afterwards, each as often as before.
    pub fn shuffle(&mut self)
        ensures
            final(self).pile@.to_multiset() == old(self).pile@.to_multiset(),
            final(self).pile@.len() == old(self).pile@.len(),
            final(self).style == old(self).style,
    {
        let mut rng: ThreadRng = rand::thread_rng();
        shuffle_pile(&mut self.pile, &mut rng);
        proof {
            old(self).pile@.to_multiset_ensures();
            self.pile@.to_multiset_ensures();
        }
    }

    /// Takes the last card off the pile.
    pub fn draw(&mut self) -> (card: Card)
        requires
            old(self).pile@.len() > 0,
        ensures
            card == old(self).pile@.last(),
            final(self).pile@ == old(self).pile@.drop_last(),
            final(self).style == old(self).style,
    {
        self.pile.pop().unwrap()
    }

    /// Takes the last card off the pile, or reports that there is none and
    /// leaves the deck as it is.
    pub fn try_draw(&mut self) -> (out: Result<Card, DrawError>)
        ensures
            final(self).style == old(self).style,
            old(self).pile@.len() == 0 ==> out == Err::<Card, DrawError>(DrawError::EmptyDeck)
                && final(self).pile@ == old(self).pile@,
            old(self).pile@.len() > 0 ==> out == Ok::<Card, DrawError>(old(self).pile@.last())
                && final(self).pile@ == old(self).pile@.drop_last(),
    {
        if self.pile.len() == 0 {
            Err(DrawError::EmptyDeck)
        } else {
            Ok(self.draw())
        }
    }

    /// Lays out the cards of a full deck: suit by suit, each suit by rising
    /// rank, without the ranks that the style leaves out.
    fn init_cards(style: &DeckType) -> (pile: Vec<Card>)
        ensures
            pile@ == full_pile(*style),
    {
        let suits: [Suit; 4] = [Suit::Clubs, Suit::Diamonds, Suit::Hearts, Suit::Spades];
        let ghost per: int = style.ranks_per_suit() as int;
        let mut pile: Vec<Card> = Vec::new();
        for s in 0usize..4
            invariant
                per == style.ranks_per_suit(),
                suits@ == seq![Suit::Clubs, Suit::Diamonds, Suit::Hearts, Suit::Spades],
                pile@ == full_pile(*style).take(s * per),
        {
            let suit: Suit = suits[s];
            for rank in 1u32..14
                invariant
                    s < 4,
                    per == style.ranks_per_suit(),
                    suit == Suit::spec_from_index(s as nat),
                    pile@ == full_pile(*style).take(s * per + style.place_of(rank as nat)),
            {
                if !style.excludes(rank) {
                    let ghost at: int = s * per + style.place_of(rank as nat);
                    assert(at % per == style.place_of(rank as nat) && at / per == s) by {
                        match *style {
                            DeckType::Poker => {},
                            DeckType::Italian => {},
                        }
                    }
                    assert(full_pile(*style)[at] == Card { rank, suit });
                    pile.push(Card::new(rank, suit));
                    assert(pile@ =~= full_pile(*style).take(at + 1));
                }
            }
        }
        assert(pile@ =~= full_pile(*style));
        pile
    }
}

/// The cards that `n` draws in a row take from a pile, the first drawn first.
/// Drawing stops when the pile is empty.
pub open spec fn drawn(pile: Seq<Card>, n: nat) -> Seq<Card>
    decreases n,
{
    if n == 0 || pile.len() == 0 {
        Seq::<Card>::empty()
    } else {
        seq![pile.last()] + drawn(pile.drop_last(), (n - 1) as nat)
    }
}

/// The pile that `n` draws in a row leave behind.
pub open spec fn left_after(pile: Seq<Card>, n: nat) -> Seq<Card>
    decreases n,
{
    if n == 0 || pile.len() == 0 {
        pile
    } else {
        left_after(pile.drop_last(), (n - 1) as nat)
    }
}

/// A full deck holds 52 cards in the Poker style and 40 in the Italian one.
pub proof fn lemma_full_pile_len(style: DeckType)
    ensures
        full_pile(style).len() == style.size(),
        style == DeckType::Poker ==> full_pile(style).len() == 52,
        style == DeckType::Italian ==> full_pile(style).len() == 40,
{
}

/// No card occurs twice in a full deck.
pub proof fn lemma_full_pile_no_duplicates(style: DeckType)
    ensures
        full_pile(style).no_duplicates(),
{
    let pile = full_pile(style);
    assert forall|i: int, j: int| 0 <= i < pile.len() && 0 <= j < pile.len() && i != j implies pile[i]
        != pile[j] by {
        if i < j {
            lemma_full_pile_ordered(style, i, j);
        } else {
            lemma_full_pile_ordered(style, j, i);
        }
    }
}

/// A full deck holds exactly the cards whose rank the style holds: of every
/// suit the ranks 1 to 13, without 8, 9 and 10 in the Italian style.
pub proof fn lemma_full_pile_contains(style: DeckType, card: Card)
    ensures
        full_pile(style).contains(card) <==> style.holds(card.rank as nat),
{
    let pile = full_pile(style);
    let per = style.ranks_per_suit() as int;
    if style.holds(card.rank as nat) {
        let at = card.suit.spec_index() * per + style.place_of(card.rank as nat);
        assert(at % per == style.place_of(card.rank as nat) && at / per == card.suit.spec_index())
            by {
            match style {
                DeckType::Poker => {},
                DeckType::Italian => {},
            }
        }
        assert(pile[at] == card);
    }
    if pile.contains(card) {
        let i = choose|i: int| 0 <= i < pile.len() && pile[i] == card;
        assert(0 <= i % per < per);
    }
}

/// A full deck is laid out suit by suit in the order Clubs, Diamonds,
/// Hearts, Spades, and within a suit by rising rank.
pub proof fn lemma_full_pile_ordered(style: DeckType, i: int, j: int)
    requires
        0 <= i < j < full_pile(style).len(),
    ensures
        full_pile(style)[i].suit.spec_index() < full_pile(style)[j].suit.spec_index() || (
        full_pile(style)[i].suit == full_pile(style)[j].suit && full_pile(style)[i].rank
            < full_pile(style)[j].rank),
{
    match style {
        DeckType::Poker => {},
        DeckType::Italian => {},
    }
}

/// The cards of one suit stand together in a full deck, and there are as many
/// of them as the style holds ranks: 13 in the Poker style, 10 in the Italian
/// one.
pub proof fn lemma_full_pile_suit(style: DeckType, suit: Suit, i: int)
    requires
        0 <= i < full_pile(style).len(),
    ensures
        full_pile(style)[i].suit == suit <==> suit.spec_index() * style.ranks_per_suit() <= i < (
        suit.spec_index() + 1) * style.ranks_per_suit(),
{
    match style {
        DeckType::Poker => {},
        DeckType::Italian => {},
    }
}

/// Draws take the cards off the end of the pile: `n` draws yield the last
/// `n` cards, the last first, and leave the cards before them as they were.
pub proof fn lemma_draws(pile: Seq<Card>, n: nat)
    requires
        n <= pile.len(),
    ensures
        drawn(pile, n) == pile.skip(pile.len() - n).reverse(),
        left_after(pile, n) == pile.take(pile.len() - n),
        drawn(pile, n).len() == n,
        left_after(pile, n).len() == pile.len() - n,
    decreases n,
{
    if n > 0 {
        lemma_draws(pile.drop_last(), (n - 1) as nat);
    }
    assert(drawn(pile, n) =~= pile.skip(pile.len() - n).reverse());
    assert(left_after(pile, n) =~= pile.take(pile.len() - n));
}

/// Drawing until the pile is empty yields every card of the pile as often as
/// the pile held it, and none besides; of a pile without repeats, every card
/// exactly once.
pub proof fn lemma_draw_all(pile: Seq<Card>)
    ensures
        left_after(pile, pile.len()) == Seq::<Card>::empty(),
        drawn(pile, pile.len()) == pile.reverse(),
        drawn(pile, pile.len()).to_multiset() == pile.to_multiset(),
        pile.no_duplicates() ==> drawn(pile, pile.len()).no_duplicates(),
{
    lemma_draws(pile, pile.len());
    assert(pile.skip(0) =~= pile);
    assert(pile.take(0) =~= Seq::<Card>::empty());
    pile.lemma_reverse_to_multiset();
}

} // verus!
