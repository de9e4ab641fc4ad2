//! A deck of playing cards, hands of cards, and a fixed-width text drawing of
//! both.
//!
//! Every function here carries a contract over a mathematical model of its
//! data: a pile of cards is a sequence of cards, a drawing is a sequence of
//! characters.

pub mod card;
pub mod deck;
pub mod hand;
pub mod suit;
pub mod text;

pub use card::Card;
pub use deck::{Deck, DeckType, DrawError};
pub use hand::Hand;
pub use suit::Suit;
