//! The immutable snapshot of a finished game and its canonical text form.

use vstd::prelude::*;
use crate::card::Card;
use crate::deck::{copy_deck, render_deck, render_deck_spec};

verus! {

/// What one finished simulation reports: both starting decks as dealt, the
/// tricks won and cards played over the whole game, and whether the game was
/// cut off because its exact state repeated.
#[derive(Clone, PartialEq, Eq, Debug)]
pub struct GameResult {
    pub p1_start: Vec<Card>,
    pub p2_start: Vec<Card>,
    pub tricks: u64,
    pub cards: u64,
    pub is_infinite: bool,
}

impl GameResult {
    /// A copy whose every field is known equal to the original's.
    pub fn duplicate(&self) -> (r: GameResult)
        ensures
            r.p1_start@ == self.p1_start@,
            r.p2_start@ == self.p2_start@,
            r.tricks == self.tricks,
            r.cards == self.cards,
            r.is_infinite == self.is_infinite,
    {
        GameResult {
            p1_start: copy_deck(&self.p1_start),
            p2_start: copy_deck(&self.p2_start),
            tricks: self.tricks,
            cards: self.cards,
            is_infinite: self.is_infinite,
        }
    }

    /// The canonical rendering: counts (or the infinite marker), then both
    /// starting decks top-down.
    pub fn render(&self) -> (s: String)
        ensures
            s@ == render_result_spec(*self),
    {
        let mut out = String::new();
        if self.is_infinite {
            out.append("∞ tricks, ∞ cards: ");
        } else {
            let t = u64_to_string(self.tricks);
            out.append(t.as_str());
            out.append(" tricks, ");
            let c = u64_to_string(self.cards);
            out.append(c.as_str());
            out.append(" cards: ");
        }
        out.append("1. ");
        let d1 = render_deck(&self.p1_start);
        out.append(d1.as_str());
        out.append(" 2. ");
        let d2 = render_deck(&self.p2_start);
        out.append(d2.as_str());
        proof {
            assert(out@ =~= render_result_spec(*self));
        }
        out
    }
}

/// The characters of a rendered result.
pub open spec fn render_result_spec(r: GameResult) -> Seq<char> {
    render_prefix_spec(r) + "1. "@ + render_deck_spec(r.p1_start@) + " 2. "@ + render_deck_spec(
        r.p2_start@,
    )
}

/// The counts part of a rendered result.
pub open spec fn render_prefix_spec(r: GameResult) -> Seq<char> {
    if r.is_infinite {
        "∞ tricks, ∞ cards: "@
    } else {
        dec_str(r.tricks as int) + " tricks, "@ + dec_str(r.cards as int) + " cards: "@
    }
}

/// The character for one decimal digit.
pub open spec fn digit_char(d: int) -> char {
    if d == 0 {
        '0'
    } else if d == 1 {
        '1'
    } else if d == 2 {
        '2'
    } else if d == 3 {
        '3'
    } else if d == 4 {
        '4'
    } else if d == 5 {
        '5'
    } else if d == 6 {
        '6'
    } else if d == 7 {
        '7'
    } else if d == 8 {
        '8'
    } else {
        '9'
    }
}

/// The usual decimal rendering of a nonnegative integer, most significant
/// digit first, no leading zeros (a lone zero for 0).
pub open spec fn dec_str(n: int) -> Seq<char>
    recommends
        n >= 0,
    decreases n,
{
    if n < 10 {
        seq![digit_char(n)]
    } else {
        dec_str(n / 10).push(digit_char(n % 10))
    }
}

/// The one-character string for a digit value.
fn digit_str(d: u64) -> (s: &'static str)
    requires
        d < 10,
    ensures
        s@ =~= seq![digit_char(d as int)],
{
    proof {
        reveal_strlit("0");
        reveal_strlit("1");
        reveal_strlit("2");
        reveal_strlit("3");
        reveal_strlit("4");
        reveal_strlit("5");
        reveal_strlit("6");
        reveal_strlit("7");
        reveal_strlit("8");
        reveal_strlit("9");
    }
    if d == 0 {
        "0"
    } else if d == 1 {
        "1"
    } else if d == 2 {
        "2"
    } else if d == 3 {
        "3"
    } else if d == 4 {
        "4"
    } else if d == 5 {
        "5"
    } else if d == 6 {
        "6"
    } else if d == 7 {
        "7"
    } else if d == 8 {
        "8"
    } else {
        "9"
    }
}

/// Render an unsigned integer in decimal.
pub fn u64_to_string(n: u64) -> (s: String)
    ensures
        s@ == dec_str(n as int),
    decreases n,
{
    if n < 10 {
        let s = digit_str(n);
        String::from_str(s)
    } else {
        let mut s = u64_to_string(n / 10);
        s.append(digit_str(n % 10));
        proof {
            assert(s@ =~= dec_str(n as int));
        }
        s
    }
}

} // verus!
