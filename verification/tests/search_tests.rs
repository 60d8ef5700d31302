use rand::rngs::SmallRng;
use rand::SeedableRng;
use war_sim::card::Card;
use war_sim::deal::gen_rand;
use war_sim::outcome::GameResult;
use war_sim::search::{BestTracker, Verdict};

fn finite(cards: u64) -> GameResult {
    GameResult {
        p1_start: vec![Card::Number],
        p2_start: vec![Card::Number],
        tricks: 0,
        cards,
        is_infinite: false,
    }
}

#[test]
fn infinite_always_reported_never_kept() {
    let mut t = BestTracker::new();
    let mut inf = finite(1000);
    inf.is_infinite = true;
    assert_eq!(t.offer(inf.clone()), Verdict::Infinite);
    assert!(t.best.is_none());
    // reported again even though nothing improved
    assert_eq!(t.offer(inf), Verdict::Infinite);
    assert!(t.best.is_none());
}

#[test]
fn new_best_needs_strict_improvement() {
    let mut t = BestTracker::new();
    assert_eq!(t.offer(finite(10)), Verdict::NewBest);
    assert_eq!(t.best.as_ref().unwrap().cards, 10);
    assert_eq!(t.offer(finite(5)), Verdict::NotBetter);
    assert_eq!(t.offer(finite(10)), Verdict::NotBetter);
    assert_eq!(t.best.as_ref().unwrap().cards, 10);
    assert_eq!(t.offer(finite(11)), Verdict::NewBest);
    assert_eq!(t.best.as_ref().unwrap().cards, 11);
}

#[test]
fn zero_card_result_is_not_a_best() {
    // the tracker credits 0 before any result, so a 0-card game never reports
    let mut t = BestTracker::new();
    assert_eq!(t.offer(finite(0)), Verdict::NotBetter);
    assert!(t.best.is_none());
}

#[test]
fn one_worker_reports_never_worsen() {
    // one worker, a bounded number of random deals: every reported new best
    // strictly beats the one before it
    let mut rng = SmallRng::seed_from_u64(42);
    let mut tracker = BestTracker::new();
    let mut reported: Vec<u64> = Vec::new();
    for _ in 0..15 {
        let mut sim = gen_rand(&mut rng);
        let r = sim.simulate();
        match tracker.offer(r.clone()) {
            Verdict::NewBest => reported.push(r.cards),
            Verdict::Infinite => assert!(r.is_infinite),
            Verdict::NotBetter => assert!(!r.is_infinite),
        }
    }
    assert!(!reported.is_empty());
    for w in reported.windows(2) {
        assert!(w[1] > w[0]);
    }
}
