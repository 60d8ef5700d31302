//! Decks as ordered card sequences, and their textual form.
//!
//! A deck is a `Vec<Card>` whose last element is the top: the next card to be
//! played. The textual form writes the top card first (leftmost), one
//! character per card, so a description reads in the order the cards will be
//! played. Parsing therefore scans the text right to left, pushing as it
//! goes; rendering walks the deck top-down.

use vstd::prelude::*;
use crate::card::Card;

verus! {

/// Why a deck description was rejected.
#[derive(Clone, Copy, PartialEq, Eq, Structural, Debug)]
pub enum ParseError {
    /// A character outside the `a/k/q/j/-` alphabet, in either case.
    UnexpectedChar(char),
    /// The description did not hold exactly 26 cards; carries the count it held.
    WrongCount(usize),
}

/// Every character of the description decodes to a card.
pub open spec fn all_valid(s: Seq<char>) -> bool {
    forall|i: int| 0 <= i < s.len() ==> Card::of_char_spec(s[i]) is Some
}

/// The card a description character decodes to, defaulting to a number card
/// where the character is invalid (only used under `all_valid`).
pub open spec fn card_at(s: Seq<char>, i: int) -> Card {
    match Card::of_char_spec(s[i]) {
        Some(c) => c,
        None => Card::Number,
    }
}

/// The deck a fully valid description denotes: the description's first
/// character is the top of the deck, hence the deck's last element.
pub open spec fn cards_of(s: Seq<char>) -> Seq<Card> {
    Seq::new(s.len(), |i: int| card_at(s, s.len() - 1 - i))
}

/// The invalid character a right-to-left scan of the description meets first.
pub open spec fn first_bad(s: Seq<char>) -> char
    recommends
        !all_valid(s),
    decreases s.len(),
{
    if s.len() == 0 {
        ' '
    } else if Card::of_char_spec(s.last()) is None {
        s.last()
    } else {
        first_bad(s.drop_last())
    }
}

/// What parsing a deck description returns: the rightmost invalid character
/// if there is one, else a count error unless exactly 26 cards were given.
pub open spec fn parse_deck_spec(s: Seq<char>) -> Result<Seq<Card>, ParseError> {
    if !all_valid(s) {
        Err(ParseError::UnexpectedChar(first_bad(s)))
    } else if s.len() != 26 {
        Err(ParseError::WrongCount(s.len() as usize))
    } else {
        Ok(cards_of(s))
    }
}

/// If `s[k]` is invalid and everything to its right is valid, the
/// right-to-left scan reports `s[k]`.
proof fn lemma_first_bad_at(s: Seq<char>, k: int)
    requires
        0 <= k < s.len(),
        Card::of_char_spec(s[k]) is None,
        forall|j: int| k < j < s.len() ==> Card::of_char_spec(s[j]) is Some,
    ensures
        first_bad(s) == s[k],
    decreases s.len(),
{
    if k == s.len() - 1 {
    } else {
        lemma_first_bad_at(s.drop_last(), k);
    }
}

/// Parse a 26-card deck description: one character per card, top of the deck
/// leftmost, case-insensitive alphabet `a/k/q/j/-`.
pub fn parse_deck(s: &str) -> (r: Result<Vec<Card>, ParseError>)
    ensures
        (match r {
            Ok(d) => parse_deck_spec(s@) == Ok::<Seq<Card>, ParseError>(d@),
            Err(e) => parse_deck_spec(s@) == Err::<Seq<Card>, ParseError>(e),
        }),
{
    let n = s.unicode_len();
    let mut out: Vec<Card> = Vec::new();
    let mut i: usize = 0;
    while i < n
        invariant
            0 <= i <= n,
            n == s@.len(),
            out@.len() == i,
            forall|j: int| 0 <= j < i ==> Card::of_char_spec(s@[n - 1 - j]) == Some(out@[j]),
        decreases n - i,
    {
        let c = s.get_char(n - 1 - i);
        match Card::of_char(c) {
            None => {
                proof {
                    assert forall|j: int| n - 1 - i < j < s@.len() implies
                        Card::of_char_spec(s@[j]) is Some by {
                        let jj = n - 1 - j;
                        assert(Card::of_char_spec(s@[n - 1 - jj]) == Some(out@[jj]));
                    }
                    lemma_first_bad_at(s@, n - 1 - i);
                }
                return Err(ParseError::UnexpectedChar(c));
            },
            Some(card) => {
                out.push(card);
            },
        }
        i += 1;
    }
    proof {
        assert(all_valid(s@)) by {
            assert forall|k: int| 0 <= k < s@.len() implies Card::of_char_spec(s@[k]) is Some by {
                let j = n - 1 - k;
                assert(Card::of_char_spec(s@[n - 1 - j]) == Some(out@[j]));
            }
        }
    }
    if out.len() != 26 {
        return Err(ParseError::WrongCount(out.len()));
    }
    proof {
        assert(out@ =~= cards_of(s@));
    }
    Ok(out)
}

/// An element-for-element copy of a deck, with its view known equal.
pub fn copy_deck(v: &Vec<Card>) -> (r: Vec<Card>)
    ensures
        r@ == v@,
{
    let mut out: Vec<Card> = Vec::new();
    let mut i: usize = 0;
    while i < v.len()
        invariant
            0 <= i <= v@.len(),
            out@ =~= v@.subrange(0, i as int),
        decreases v@.len() - i,
    {
        out.push(v[i]);
        proof {
            assert(out@ =~= v@.subrange(0, i + 1));
        }
        i += 1;
    }
    proof {
        assert(out@ =~= v@);
    }
    out
}

/// How many characters a rendered deck holds, and which: the top card's
/// character first, down to the bottom card's last.
pub open spec fn render_deck_spec(d: Seq<Card>) -> Seq<char> {
    Seq::new(d.len(), |i: int| d[d.len() - 1 - i].char_spec())
}

/// Render a deck top-down, one character per card.
pub fn render_deck(d: &Vec<Card>) -> (s: String)
    ensures
        s@ == render_deck_spec(d@),
{
    let n = d.len();
    let mut out = String::new();
    let mut i: usize = 0;
    while i < n
        invariant
            0 <= i <= n,
            n == d@.len(),
            out@ =~= render_deck_spec(d@).subrange(0, i as int),
        decreases n - i,
    {
        out.append(d[n - 1 - i].as_str());
        proof {
            assert(out@ =~= render_deck_spec(d@).subrange(0, i + 1));
        }
        i += 1;
    }
    proof {
        assert(render_deck_spec(d@).subrange(0, n as int) =~= render_deck_spec(d@));
    }
    out
}

/// Round trip: rendering a 26-card deck and parsing the text back yields the
/// identical deck.
pub proof fn lemma_parse_render_roundtrip(d: Seq<Card>)
    requires
        d.len() == 26,
    ensures
        parse_deck_spec(render_deck_spec(d)) == Ok::<Seq<Card>, ParseError>(d),
{
    let s = render_deck_spec(d);
    assert(all_valid(s)) by {
        assert forall|i: int| 0 <= i < s.len() implies Card::of_char_spec(s[i]) is Some by {
            crate::card::lemma_char_roundtrip(d[d.len() - 1 - i]);
        }
    }
    assert(cards_of(s) =~= d) by {
        assert forall|i: int| 0 <= i < d.len() implies cards_of(s)[i] == d[i] by {
            crate::card::lemma_char_roundtrip(d[i]);
        }
    }
}

} // verus!
