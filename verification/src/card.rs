//! The 52-card alphabet: plain number cards and the four face cards.

use vstd::prelude::*;

verus! {

/// A card. Only face cards carry a penalty weight (Jack 1 .. Ace 4); a
/// number card pays a pending penalty instead of setting one.
#[derive(Clone, Copy, PartialEq, Eq, Structural, Debug, Hash)]
pub enum Card {
    Number,
    Jack,
    Queen,
    King,
    Ace,
}

impl Card {
    /// The penalty weight a card sets when played: how many number cards the
    /// opponent must then pay. A number card has weight 0.
    pub open spec fn weight_spec(self) -> u8 {
        match self {
            Card::Number => 0,
            Card::Jack => 1,
            Card::Queen => 2,
            Card::King => 3,
            Card::Ace => 4,
        }
    }

    /// Executable penalty weight.
    pub fn weight(self) -> (w: u8)
        ensures
            w == self.weight_spec(),
    {
        match self {
            Card::Number => 0,
            Card::Jack => 1,
            Card::Queen => 2,
            Card::King => 3,
            Card::Ace => 4,
        }
    }

    /// The character that renders a card.
    pub open spec fn char_spec(self) -> char {
        match self {
            Card::Number => '-',
            Card::Jack => 'J',
            Card::Queen => 'Q',
            Card::King => 'K',
            Card::Ace => 'A',
        }
    }

    /// The one-character string slice that renders a card.
    pub fn as_str(self) -> (s: &'static str)
        ensures
            s@ =~= seq![self.char_spec()],
    {
        proof {
            reveal_strlit("-");
            reveal_strlit("J");
            reveal_strlit("Q");
            reveal_strlit("K");
            reveal_strlit("A");
        }
        match self {
            Card::Number => "-",
            Card::Jack => "J",
            Card::Queen => "Q",
            Card::King => "K",
            Card::Ace => "A",
        }
    }

    /// The card a character stands for, upper or lower case, or `None` for a
    /// character outside the deck alphabet.
    pub open spec fn of_char_spec(c: char) -> Option<Card> {
        if c == 'a' || c == 'A' {
            Some(Card::Ace)
        } else if c == 'k' || c == 'K' {
            Some(Card::King)
        } else if c == 'q' || c == 'Q' {
            Some(Card::Queen)
        } else if c == 'j' || c == 'J' {
            Some(Card::Jack)
        } else if c == '-' {
            Some(Card::Number)
        } else {
            None
        }
    }

    /// Executable character decoding.
    pub fn of_char(c: char) -> (r: Option<Card>)
        ensures
            r == Card::of_char_spec(c),
    {
        if c == 'a' || c == 'A' {
            Some(Card::Ace)
        } else if c == 'k' || c == 'K' {
            Some(Card::King)
        } else if c == 'q' || c == 'Q' {
            Some(Card::Queen)
        } else if c == 'j' || c == 'J' {
            Some(Card::Jack)
        } else if c == '-' {
            Some(Card::Number)
        } else {
            None
        }
    }
}

/// Decoding inverts rendering: every card's character parses back to the card.
pub proof fn lemma_char_roundtrip(c: Card)
    ensures
        Card::of_char_spec(c.char_spec()) == Some(c),
{
}

} // verus!
