use war_sim::card::Card;
use war_sim::game::GameSim;

#[test]
fn all_numbers_first_step_passes_lead() {
    let mut sim = GameSim::from_decks(vec![Card::Number; 26], vec![Card::Number; 26]);
    let done = sim.step();
    assert!(done.is_none());
    // the first card played is a Number with no pending penalty: the lead
    // just passes
    assert_eq!(sim.state.played_cards, vec![Card::Number]);
    assert_eq!(sim.state.penalty_remaining, 0);
    assert!(sim.state.player);
    assert_eq!(sim.result.cards, 1);
    assert_eq!(sim.result.tricks, 0);
}

#[test]
fn all_numbers_exhaust_in_52_cards() {
    let mut sim = GameSim::from_decks(vec![Card::Number; 26], vec![Card::Number; 26]);
    let r = sim.simulate();
    assert!(!r.is_infinite);
    assert_eq!(r.tricks, 0);
    assert_eq!(r.cards, 52);
    // nobody ever claimed the pile: every card passed through it
    assert!(sim.state.p1_deck.is_empty());
    assert!(sim.state.p2_deck.is_empty());
    assert_eq!(sim.state.played_cards.len(), 52);
}

#[test]
fn payer_takes_the_pile() {
    // player 1 leads a Jack; player 2 pays one number card, wins the trick,
    // and the pile lands reversed beneath player 2's remaining deck
    let mut sim = GameSim::from_decks(vec![Card::Jack], vec![Card::Number, Card::Number]);
    let r = sim.simulate();
    assert!(!r.is_infinite);
    assert_eq!(r.tricks, 1);
    assert_eq!(r.cards, 2);
    assert!(sim.state.p1_deck.is_empty());
    assert_eq!(sim.state.p2_deck, vec![Card::Number, Card::Jack, Card::Number]);
}

#[test]
fn queen_costs_two_number_cards() {
    let mut sim = GameSim::from_decks(
        vec![Card::Queen, Card::Number],
        vec![Card::Number, Card::Number, Card::Number],
    );
    let r = sim.simulate();
    assert!(!r.is_infinite);
    assert_eq!(r.tricks, 1);
    assert_eq!(r.cards, 5);
    assert_eq!(
        sim.state.p2_deck,
        vec![Card::Number, Card::Number, Card::Queen, Card::Number, Card::Number]
    );
}

#[test]
fn symmetric_deal_is_detected_infinite() {
    // a deal whose exact state repeats after a trick reshuffles the pile
    let mut sim = GameSim::from_decks(
        vec![Card::Number, Card::Jack],
        vec![Card::Number, Card::Jack, Card::Jack],
    );
    let r = sim.simulate();
    assert!(r.is_infinite);
    assert_eq!(r.tricks, 2);
    assert_eq!(r.cards, 7);
    // the final state really was observed before
    let last = sim.visited.last().unwrap().clone();
    let earlier = sim.visited[..sim.visited.len() - 1].iter().any(|s| *s == last);
    assert!(earlier);
}

#[test]
fn empty_deck_ends_before_any_play() {
    let mut sim = GameSim::from_decks(vec![], vec![Card::Jack]);
    let r = sim.simulate();
    assert!(!r.is_infinite);
    assert_eq!(r.cards, 0);
    assert_eq!(r.tricks, 0);
}

#[test]
fn cards_are_conserved() {
    let mut sim = GameSim::from_decks(
        vec![Card::Ace, Card::Number, Card::Number, Card::King],
        vec![Card::Number, Card::Number, Card::Number],
    );
    let total = sim.state.p1_deck.len() + sim.state.p2_deck.len();
    let mut steps = 0u64;
    loop {
        let done = sim.step();
        assert_eq!(
            sim.state.p1_deck.len() + sim.state.p2_deck.len() + sim.state.played_cards.len(),
            total
        );
        if done.is_some() {
            break;
        }
        steps += 1;
        assert!(steps < 10_000);
    }
}

#[test]
fn cards_counter_counts_observed_states() {
    let mut sim = GameSim::from_decks(
        vec![Card::Number, Card::Jack],
        vec![Card::Number, Card::Jack, Card::Jack],
    );
    let r = sim.simulate();
    assert_eq!(r.cards as usize, sim.visited.len());
}

#[test]
fn result_captures_starting_decks() {
    let p1 = vec![Card::Ace, Card::Number];
    let p2 = vec![Card::Number, Card::King];
    let mut sim = GameSim::from_decks(p1.clone(), p2.clone());
    let r = sim.simulate();
    assert_eq!(r.p1_start, p1);
    assert_eq!(r.p2_start, p2);
}
