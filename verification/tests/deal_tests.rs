use rand::rngs::SmallRng;
use rand::SeedableRng;
use war_sim::card::Card;
use war_sim::deal::{full_deck, gen_rand, random_deal};

fn count(cards: &[Card], want: Card) -> usize {
    cards.iter().filter(|c| **c == want).count()
}

#[test]
fn full_deck_composition() {
    let d = full_deck();
    assert_eq!(d.len(), 52);
    assert_eq!(count(&d, Card::Ace), 4);
    assert_eq!(count(&d, Card::King), 4);
    assert_eq!(count(&d, Card::Queen), 4);
    assert_eq!(count(&d, Card::Jack), 4);
    assert_eq!(count(&d, Card::Number), 36);
    assert_eq!(d[0], Card::Ace);
    assert_eq!(d[1], Card::King);
    assert_eq!(d[2], Card::Queen);
    assert_eq!(d[3], Card::Jack);
    assert_eq!(d[4], Card::Ace);
    assert_eq!(d[16], Card::Number);
}

#[test]
fn random_deal_composition() {
    let mut rng = SmallRng::seed_from_u64(7);
    let (p1, p2) = random_deal(&mut rng);
    assert_eq!(p1.len(), 26);
    assert_eq!(p2.len(), 26);
    // together the halves hold exactly the standard pack
    assert_eq!(count(&p1, Card::Ace) + count(&p2, Card::Ace), 4);
    assert_eq!(count(&p1, Card::King) + count(&p2, Card::King), 4);
    assert_eq!(count(&p1, Card::Queen) + count(&p2, Card::Queen), 4);
    assert_eq!(count(&p1, Card::Jack) + count(&p2, Card::Jack), 4);
    assert_eq!(count(&p1, Card::Number) + count(&p2, Card::Number), 36);
}

#[test]
fn random_deal_actually_shuffles() {
    // with this seed the pack does not come back in construction order
    let mut rng = SmallRng::seed_from_u64(7);
    let (p1, p2) = random_deal(&mut rng);
    let pack = full_deck();
    let unshuffled = p1 == pack[..26].to_vec() && p2 == pack[26..].to_vec();
    assert!(!unshuffled);
}

#[test]
fn gen_rand_starts_clean() {
    let mut rng = SmallRng::seed_from_u64(11);
    let sim = gen_rand(&mut rng);
    assert_eq!(sim.result.cards, 0);
    assert_eq!(sim.result.tricks, 0);
    assert!(!sim.result.is_infinite);
    assert!(!sim.state.player);
    assert_eq!(sim.state.penalty_remaining, 0);
    assert!(sim.state.played_cards.is_empty());
    assert_eq!(sim.state.p1_deck, sim.result.p1_start);
    assert_eq!(sim.state.p2_deck, sim.result.p2_start);
    assert_eq!(sim.state.p1_deck.len(), 26);
    assert_eq!(sim.state.p2_deck.len(), 26);
}
