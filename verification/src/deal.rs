//! The standard pack and uniformly random 26/26 deals.

use vstd::prelude::*;
use vstd::seq_lib::lemma_multiset_commutative;
use rand::seq::SliceRandom;
use crate::card::Card;
use crate::game::{AbsState, GameSim};

verus! {

/// The card at one position of the freshly built pack: four rounds of
/// Ace, King, Queen, Jack, then 36 number cards.
pub open spec fn standard_card(i: int) -> Card {
    if i >= 16 {
        Card::Number
    } else if i % 4 == 0 {
        Card::Ace
    } else if i % 4 == 1 {
        Card::King
    } else if i % 4 == 2 {
        Card::Queen
    } else {
        Card::Jack
    }
}

/// The standard 52-card pack in construction order.
pub open spec fn standard_deck() -> Seq<Card> {
    Seq::new(52, |i: int| standard_card(i))
}

/// Build the full standard pack.
pub fn full_deck() -> (d: Vec<Card>)
    ensures
        d@ == standard_deck(),
{
    let mut d: Vec<Card> = Vec::new();
    let mut r: usize = 0;
    while r < 4
        invariant
            0 <= r <= 4,
            d@.len() == 4 * r,
            forall|i: int| 0 <= i < d@.len() ==> d@[i] == standard_card(i),
        decreases 4 - r,
    {
        d.push(Card::Ace);
        d.push(Card::King);
        d.push(Card::Queen);
        d.push(Card::Jack);
        r += 1;
    }
    let mut k: usize = 0;
    while k < 36
        invariant
            0 <= k <= 36,
            d@.len() == 16 + k,
            forall|i: int| 0 <= i < d@.len() ==> d@[i] == standard_card(i),
        decreases 36 - k,
    {
        d.push(Card::Number);
        k += 1;
    }
    proof {
        assert(d@ =~= standard_deck());
    }
    d
}

/// The external small random generator a deal is drawn with.
#[verifier::external_type_specification]
#[verifier::external_body]
pub struct ExSmallRng(rand::rngs::SmallRng);

/// Relies on rand's `SliceRandom::shuffle` for `[T]`: it permutes the slice
/// in place, only swapping elements, so afterward the cards are the same
/// multiset (in an order the generator chose).
#[verifier::external_body]
fn shuffle_cards(cards: &mut Vec<Card>, rng: &mut rand::rngs::SmallRng)
    ensures
        final(cards)@.len() == old(cards)@.len(),
        final(cards)@.to_multiset() == old(cards)@.to_multiset(),
{
    cards.as_mut_slice().shuffle(rng);
}

/// Split a 52-card pack into its first 26 cards and its last 26.
fn deal_split(pack: Vec<Card>) -> (r: (Vec<Card>, Vec<Card>))
    requires
        pack@.len() == 52,
    ensures
        r.0@ == pack@.subrange(0, 26),
        r.1@ == pack@.subrange(26, 52),
{
    let mut p1: Vec<Card> = Vec::new();
    let mut p2: Vec<Card> = Vec::new();
    let mut i: usize = 0;
    while i < 26
        invariant
            0 <= i <= 26,
            pack@.len() == 52,
            p1@ =~= pack@.subrange(0, i as int),
        decreases 26 - i,
    {
        p1.push(pack[i]);
        proof {
            assert(p1@ =~= pack@.subrange(0, i + 1));
        }
        i += 1;
    }
    while i < 52
        invariant
            26 <= i <= 52,
            pack@.len() == 52,
            p2@ =~= pack@.subrange(26, i as int),
        decreases 52 - i,
    {
        p2.push(pack[i]);
        proof {
            assert(p2@ =~= pack@.subrange(26, i + 1));
        }
        i += 1;
    }
    (p1, p2)
}

/// Draw a uniformly random 26/26 deal: the two decks together hold exactly
/// the cards of the standard pack.
pub fn random_deal(rng: &mut rand::rngs::SmallRng) -> (r: (Vec<Card>, Vec<Card>))
    ensures
        r.0@.len() == 26,
        r.1@.len() == 26,
        r.0@.to_multiset().add(r.1@.to_multiset()) == standard_deck().to_multiset(),
{
    let mut pack = full_deck();
    shuffle_cards(&mut pack, rng);
    let ghost shuffled = pack@;
    let (p1, p2) = deal_split(pack);
    proof {
        assert(shuffled =~= p1@ + p2@);
        lemma_multiset_commutative(p1@, p2@);
        assert(p1@.to_multiset().add(p2@.to_multiset()) =~= standard_deck().to_multiset());
    }
    (p1, p2)
}

/// Start a simulation from a random deal of the standard pack.
pub fn gen_rand(rng: &mut rand::rngs::SmallRng) -> (sim: GameSim)
    ensures
        sim.wf(),
        sim.running_inv(),
        sim.state@.player == false,
        sim.state@.penalty == 0,
        sim.state@.pile == Seq::<Card>::empty(),
        sim.state@.p1 == sim.result.p1_start@,
        sim.state@.p2 == sim.result.p2_start@,
        sim.result.p1_start@.len() == 26,
        sim.result.p2_start@.len() == 26,
        sim.result.p1_start@.to_multiset().add(sim.result.p2_start@.to_multiset())
            == standard_deck().to_multiset(),
        sim.result.tricks == 0,
        sim.result.cards == 0,
        sim.result.is_infinite == false,
        sim.seen() == Seq::<AbsState>::empty(),
{
    let (p1, p2) = random_deal(rng);
    GameSim::from_decks(p1, p2)
}

} // verus!
