//! The four suits and the glyph each one is drawn with.

use vstd::prelude::*;

verus! {

/// One of the four suits of a deck.
#[derive(Clone, Copy, Debug, PartialEq, Eq, Structural)]
pub enum Suit {
    Clubs,
    Diamonds,
    Hearts,
    Spades,
}

impl Suit {
    /// The character a suit is drawn with.
    pub open spec fn spec_glyph(self) -> char {
        match self {
            Suit::Clubs => '♧',
            Suit::Diamonds => '♢',
            Suit::Hearts => '♡',
            Suit::Spades => '♤',
        }
    }

    /// The position of a suit in the fixed order Clubs, Diamonds, Hearts,
    /// Spades, counted from zero.
    pub open spec fn spec_index(self) -> nat {
        match self {
            Suit::Clubs => 0,
            Suit::Diamonds => 1,
            Suit::Hearts => 2,
            Suit::Spades => 3,
        }
    }

    /// The suit at a position of the fixed order; positions past the end
    /// give Spades.
    pub open spec fn spec_from_index(i: nat) -> Suit {
        if i == 0 {
            Suit::Clubs
        } else if i == 1 {
            Suit::Diamonds
        } else if i == 2 {
            Suit::Hearts
        } else {
            Suit::Spades
        }
    }

    /// The glyph of the suit as a character.
    #[verifier::when_used_as_spec(spec_glyph)]
    pub fn glyph(self) -> (c: char)
        ensures
            c == self.spec_glyph(),
    {
        match self {
            Suit::Clubs => '♧',
            Suit::Diamonds => '♢',
            Suit::Hearts => '♡',
            Suit::Spades => '♤',
        }
    }

    /// The glyph of the suit as text of one character.
    pub fn glyph_str(self) -> (s: &'static str)
        ensures
            s@ == seq![self.spec_glyph()],
    {
        proof {
            reveal_strlit("♧");
            reveal_strlit("♢");
            reveal_strlit("♡");
            reveal_strlit("♤");
        }
        match self {
            Suit::Clubs => "♧",
            Suit::Diamonds => "♢",
            Suit::Hearts => "♡",
            Suit::Spades => "♤",
        }
    }
}

/// Different suits are drawn with different glyphs.
pub proof fn lemma_glyph_injective(a: Suit, b: Suit)
    requires
        a.spec_glyph() == b.spec_glyph(),
    ensures
        a == b,
{
}

} // verus!
