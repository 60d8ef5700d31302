//! Classifying simulation results for the exploration search: infinite games
//! are always worth reporting, a finite game only when it strictly beats the
//! best card count seen so far.

use vstd::prelude::*;
use crate::outcome::GameResult;

verus! {

/// How an offered result is classified.
#[derive(Clone, Copy, PartialEq, Eq, Structural, Debug)]
pub enum Verdict {
    /// The game never ends: always reported, never kept as a best.
    Infinite,
    /// A finite result strictly better than every finite one before it:
    /// reported and kept.
    NewBest,
    /// A finite result no better than the best so far: not reported.
    NotBetter,
}

/// The classification of one result against the best card count so far.
pub open spec fn verdict_spec(best: u64, r: GameResult) -> Verdict {
    if r.is_infinite {
        Verdict::Infinite
    } else if r.cards > best {
        Verdict::NewBest
    } else {
        Verdict::NotBetter
    }
}

/// The best card count after one result has been offered.
pub open spec fn next_best_spec(best: u64, r: GameResult) -> u64 {
    if !r.is_infinite && r.cards > best {
        r.cards
    } else {
        best
    }
}

/// The best card count after a whole sequence of results, offered in order.
pub open spec fn best_after(init: u64, rs: Seq<GameResult>) -> u64
    decreases rs.len(),
{
    if rs.len() == 0 {
        init
    } else {
        next_best_spec(best_after(init, rs.drop_last()), rs.last())
    }
}

/// Tracks the best finite result seen so far; used by each worker for its
/// own results and by the aggregator for everything the workers report.
pub struct BestTracker {
    pub best: Option<GameResult>,
}

impl BestTracker {
    /// The card count the tracker credits: 0 before any finite result.
    pub open spec fn best_cards(self) -> u64 {
        match self.best {
            None => 0,
            Some(r) => r.cards,
        }
    }

    /// A tracker that has seen nothing yet.
    pub fn new() -> (t: BestTracker)
        ensures
            t.best is None,
            t.best_cards() == 0,
    {
        BestTracker { best: None }
    }

    /// Classify a result and keep it when it is a new best. An infinite
    /// result is always `Infinite` and never kept; a finite one is `NewBest`
    /// and kept exactly when its card count strictly beats the best so far.
    /// The credited best count never decreases.
    pub fn offer(&mut self, r: GameResult) -> (v: Verdict)
        ensures
            v == verdict_spec(old(self).best_cards(), r),
            final(self).best_cards() == next_best_spec(old(self).best_cards(), r),
            v == Verdict::NewBest ==> (final(self).best matches Some(b)
                && crate::game::result_matches(b, r)),
            v != Verdict::NewBest ==> final(self).best == old(self).best,
            final(self).best_cards() >= old(self).best_cards(),
    {
        if r.is_infinite {
            Verdict::Infinite
        } else {
            let current: u64 = match &self.best {
                Some(b) => b.cards,
                None => 0,
            };
            if r.cards > current {
                self.best = Some(r);
                Verdict::NewBest
            } else {
                Verdict::NotBetter
            }
        }
    }
}

/// Offering more results never lowers the best card count.
pub proof fn lemma_best_monotone(init: u64, rs: Seq<GameResult>, i: int, j: int)
    requires
        0 <= i <= j <= rs.len(),
    ensures
        best_after(init, rs.take(j)) >= best_after(init, rs.take(i)),
    decreases j - i,
{
    if j > i {
        lemma_best_monotone(init, rs, i, j - 1);
        assert(rs.take(j).drop_last() =~= rs.take(j - 1));
        assert(rs.take(j).last() == rs[j - 1]);
    }
}

/// A new best reported later in a run always has a strictly higher card
/// count than any new best reported before it: the search never announces a
/// best that is worse than an earlier announcement.
pub proof fn lemma_new_best_increases(init: u64, rs: Seq<GameResult>, i: int, j: int)
    requires
        0 <= i < j < rs.len(),
        verdict_spec(best_after(init, rs.take(i)), rs[i]) == Verdict::NewBest,
        verdict_spec(best_after(init, rs.take(j)), rs[j]) == Verdict::NewBest,
    ensures
        rs[j].cards > rs[i].cards,
{
    assert(rs.take(i + 1).drop_last() =~= rs.take(i));
    assert(rs.take(i + 1).last() == rs[i]);
    assert(best_after(init, rs.take(i + 1)) == rs[i].cards);
    lemma_best_monotone(init, rs, i + 1, j);
}

} // verus!
