use war_sim::card::Card;
use war_sim::game::GameSim;
use war_sim::outcome::{u64_to_string, GameResult};

#[test]
fn decimal_rendering() {
    assert_eq!(u64_to_string(0), "0");
    assert_eq!(u64_to_string(7), "7");
    assert_eq!(u64_to_string(10), "10");
    assert_eq!(u64_to_string(52), "52");
    assert_eq!(u64_to_string(1234567890123), "1234567890123");
    assert_eq!(u64_to_string(u64::MAX), "18446744073709551615");
}

#[test]
fn render_finite_result() {
    let r = GameResult {
        p1_start: vec![Card::Number, Card::Ace],
        p2_start: vec![Card::Jack],
        tricks: 3,
        cards: 17,
        is_infinite: false,
    };
    assert_eq!(r.render(), "3 tricks, 17 cards: 1. A- 2. J");
}

#[test]
fn render_infinite_result() {
    let r = GameResult {
        p1_start: vec![Card::Number, Card::Ace],
        p2_start: vec![Card::Jack],
        tricks: 3,
        cards: 17,
        is_infinite: true,
    };
    assert_eq!(r.render(), "\u{221e} tricks, \u{221e} cards: 1. A- 2. J");
}

#[test]
fn render_simulated_infinite_game() {
    let mut sim = GameSim::from_decks(
        vec![Card::Number, Card::Jack],
        vec![Card::Number, Card::Jack, Card::Jack],
    );
    let r = sim.simulate();
    assert_eq!(r.render(), "\u{221e} tricks, \u{221e} cards: 1. J- 2. JJ-");
}

#[test]
fn render_simulated_finite_game() {
    let mut sim = GameSim::from_decks(vec![Card::Jack], vec![Card::Number, Card::Number]);
    let r = sim.simulate();
    assert_eq!(r.render(), "1 tricks, 2 cards: 1. J 2. --");
}

#[test]
fn duplicate_copies_every_field() {
    let r = GameResult {
        p1_start: vec![Card::Queen],
        p2_start: vec![Card::Number, Card::King],
        tricks: 1,
        cards: 9,
        is_infinite: false,
    };
    assert_eq!(r.duplicate(), r);
}
