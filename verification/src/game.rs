//! The game engine: one game's state, the single-step transition, exact-state
//! cycle detection, and the run-to-completion loop.

use vstd::prelude::*;
use crate::card::Card;
use crate::deck::copy_deck;
use crate::outcome::GameResult;

verus! {

/// The mathematical value of one full game state: whose turn it is, the
/// pending penalty, both decks and the shared play pile. Cycle detection
/// compares exactly this tuple.
#[verifier::ext_equal]
pub ghost struct AbsState {
    /// `false` means player 1 is to move.
    pub player: bool,
    /// 0 means no pending penalty: any card just passes the lead.
    pub penalty: nat,
    pub p1: Seq<Card>,
    pub p2: Seq<Card>,
    pub pile: Seq<Card>,
}

impl AbsState {
    /// The deck of the player whose turn it is.
    pub open spec fn active(self) -> Seq<Card> {
        if self.player {
            self.p2
        } else {
            self.p1
        }
    }

    /// Every card in play: no step may create or destroy one.
    pub open spec fn total(self) -> nat {
        self.p1.len() + self.p2.len() + self.pile.len()
    }
}

/// Whether the pending play pays the last owed number card and so wins the
/// trick for the player paying it.
pub open spec fn trick_won(s: AbsState) -> bool {
    s.active().len() > 0 && s.active().last() == Card::Number && s.penalty == 1
}

/// The state after the active player plays the top card of their deck:
/// with no pending penalty the card passes the lead and sets the penalty to
/// its weight (0 for a number card); with a pending penalty a face card
/// counters it and a number card pays one off, the last one winning the
/// trick, which moves the pile, reversed, beneath the winner's remaining
/// deck and passes the lead.
pub open spec fn step_spec(s: AbsState) -> AbsState
    recommends
        s.active().len() > 0,
{
    let c = s.active().last();
    let rest = s.active().drop_last();
    let pile = s.pile.push(c);
    if c == Card::Number && s.penalty > 0 {
        if s.penalty == 1 {
            let won = pile.reverse() + rest;
            AbsState {
                player: !s.player,
                penalty: 0,
                p1: if s.player {
                    s.p1
                } else {
                    won
                },
                p2: if s.player {
                    won
                } else {
                    s.p2
                },
                pile: Seq::empty(),
            }
        } else {
            AbsState {
                player: s.player,
                penalty: (s.penalty - 1) as nat,
                p1: if s.player {
                    s.p1
                } else {
                    rest
                },
                p2: if s.player {
                    rest
                } else {
                    s.p2
                },
                pile,
            }
        }
    } else {
        AbsState {
            player: !s.player,
            penalty: c.weight_spec() as nat,
            p1: if s.player {
                s.p1
            } else {
                rest
            },
            p2: if s.player {
                rest
            } else {
                s.p2
            },
            pile,
        }
    }
}

/// Conservation: a step neither creates nor destroys a card.
pub proof fn lemma_step_conserves_total(s: AbsState)
    requires
        s.active().len() > 0,
    ensures
        step_spec(s).total() == s.total(),
{
    let pile = s.pile.push(s.active().last());
    assert(pile.reverse().len() == pile.len());
}

/// The state reached after `n` steps from `s`.
pub open spec fn step_iter(s: AbsState, n: nat) -> AbsState
    decreases n,
{
    if n == 0 {
        s
    } else {
        step_spec(step_iter(s, (n - 1) as nat))
    }
}

/// Conservation over a whole run: every state reachable by steps that each
/// had a card to play holds exactly the cards of the initial state.
pub proof fn lemma_run_conserves_total(s: AbsState, n: nat)
    requires
        forall|k: nat| k < n ==> #[trigger] step_iter(s, k).active().len() > 0,
    ensures
        step_iter(s, n).total() == s.total(),
    decreases n,
{
    if n > 0 {
        lemma_run_conserves_total(s, (n - 1) as nat);
        lemma_step_conserves_total(step_iter(s, (n - 1) as nat));
    }
}

/// How many tricks the first `n` steps from `s` complete.
pub open spec fn tricks_in(s: AbsState, n: nat) -> nat
    decreases n,
{
    if n == 0 {
        0
    } else {
        tricks_in(s, (n - 1) as nat) + (if trick_won(step_iter(s, (n - 1) as nat)) {
            1nat
        } else {
            0nat
        })
    }
}

/// A step at most passes the lead and never sets a penalty above the largest
/// face weight.
pub proof fn lemma_step_penalty_bound(s: AbsState)
    requires
        s.active().len() > 0,
        s.penalty <= 4,
    ensures
        step_spec(s).penalty <= 4,
{
}

/// The mutable game state the engine owns, mirroring [`AbsState`] with
/// executable types.
#[derive(Clone, PartialEq, Eq, Debug)]
pub struct GameState {
    pub player: bool,
    pub penalty_remaining: u8,
    pub p1_deck: Vec<Card>,
    pub p2_deck: Vec<Card>,
    pub played_cards: Vec<Card>,
}

impl View for GameState {
    type V = AbsState;

    open spec fn view(&self) -> AbsState {
        AbsState {
            player: self.player,
            penalty: self.penalty_remaining as nat,
            p1: self.p1_deck@,
            p2: self.p2_deck@,
            pile: self.played_cards@,
        }
    }
}

impl GameState {
    /// A copy of the state whose abstract value is known equal.
    pub fn snapshot(&self) -> (s: GameState)
        ensures
            s@ == self@,
    {
        let s = GameState {
            player: self.player,
            penalty_remaining: self.penalty_remaining,
            p1_deck: copy_deck(&self.p1_deck),
            p2_deck: copy_deck(&self.p2_deck),
            played_cards: copy_deck(&self.played_cards),
        };
        proof {
            assert(s@ =~= self@);
        }
        s
    }
}

/// Whether two decks hold the same cards in the same order.
fn decks_eq(a: &Vec<Card>, b: &Vec<Card>) -> (r: bool)
    ensures
        r <==> a@ == b@,
{
    if a.len() != b.len() {
        return false;
    }
    let mut i: usize = 0;
    while i < a.len()
        invariant
            0 <= i <= a@.len(),
            a@.len() == b@.len(),
            forall|j: int| 0 <= j < i ==> a@[j] == b@[j],
        decreases a@.len() - i,
    {
        if a[i] != b[i] {
            return false;
        }
        i += 1;
    }
    proof {
        assert(a@ =~= b@);
    }
    true
}

/// Whether two game states are exactly equal as full state tuples.
fn states_eq(a: &GameState, b: &GameState) -> (r: bool)
    ensures
        r <==> a@ == b@,
{
    let r = a.player == b.player && a.penalty_remaining == b.penalty_remaining && decks_eq(
        &a.p1_deck,
        &b.p1_deck,
    ) && decks_eq(&a.p2_deck, &b.p2_deck) && decks_eq(&a.played_cards, &b.played_cards);
    proof {
        if r {
            assert(a@ =~= b@);
        }
    }
    r
}

/// Whether the recorded snapshot list already holds a state.
fn seen_contains(visited: &Vec<GameState>, s: &GameState) -> (r: bool)
    ensures
        r <==> exists|k: int| 0 <= k < visited@.len() && visited@[k]@ == s@,
{
    let mut i: usize = 0;
    while i < visited.len()
        invariant
            0 <= i <= visited@.len(),
            forall|k: int| 0 <= k < i ==> visited@[k]@ != s@,
        decreases visited@.len() - i,
    {
        if states_eq(&visited[i], s) {
            return true;
        }
        i += 1;
    }
    false
}

/// Whether a reported result copies another field for field.
pub open spec fn result_matches(r: GameResult, o: GameResult) -> bool {
    &&& r.p1_start@ == o.p1_start@
    &&& r.p2_start@ == o.p2_start@
    &&& r.tricks == o.tricks
    &&& r.cards == o.cards
    &&& r.is_infinite == o.is_infinite
}

/// One game's simulation: the running result, the current state, and every
/// state observed so far, in order, for cycle detection.
pub struct GameSim {
    pub result: GameResult,
    pub state: GameState,
    pub visited: Vec<GameState>,
}

impl GameSim {
    /// The abstract states recorded so far, in observation order.
    pub open spec fn seen(self) -> Seq<AbsState> {
        self.visited@.map_values(|g: GameState| g@)
    }

    /// Structural well-formedness: the cards in play are exactly the cards
    /// of the recorded deal, and the penalty never exceeds the largest face
    /// weight.
    pub open spec fn wf(self) -> bool {
        &&& self.state@.total() == self.result.p1_start@.len() + self.result.p2_start@.len()
        &&& self.state@.penalty <= 4
    }

    /// Holds while the simulation is still running: the game has not been
    /// flagged infinite, the card counter counts the recorded states, no
    /// recorded state repeats, every recorded state holds the deal's cards
    /// with its penalty in range, and tricks never outnumber cards.
    pub open spec fn running_inv(self) -> bool {
        &&& !self.result.is_infinite
        &&& self.result.cards == self.seen().len()
        &&& self.result.tricks <= self.result.cards
        &&& forall|i: int, j: int|
            0 <= i < j < self.seen().len() ==> self.seen()[i] != self.seen()[j]
        &&& forall|i: int|
            0 <= i < self.seen().len() ==> (#[trigger] self.seen()[i]).total()
                == self.result.p1_start@.len() + self.result.p2_start@.len()
                && self.seen()[i].penalty <= 4
    }

    /// Start a simulation from an explicit deal: player 1 leads, no pending
    /// penalty, an empty pile, and the deal captured for the result.
    pub fn from_decks(p1_deck: Vec<Card>, p2_deck: Vec<Card>) -> (sim: GameSim)
        ensures
            sim.wf(),
            sim.running_inv(),
            sim.state@ == (AbsState {
                player: false,
                penalty: 0,
                p1: p1_deck@,
                p2: p2_deck@,
                pile: Seq::<Card>::empty(),
            }),
            sim.result.p1_start@ == p1_deck@,
            sim.result.p2_start@ == p2_deck@,
            sim.result.tricks == 0,
            sim.result.cards == 0,
            sim.result.is_infinite == false,
            sim.seen() == Seq::<AbsState>::empty(),
    {
        let result = GameResult {
            p1_start: copy_deck(&p1_deck),
            p2_start: copy_deck(&p2_deck),
            tricks: 0,
            cards: 0,
            is_infinite: false,
        };
        let state = GameState {
            player: false,
            penalty_remaining: 0,
            p1_deck,
            p2_deck,
            played_cards: Vec::new(),
        };
        let sim = GameSim { result, state, visited: Vec::new() };
        proof {
            assert(sim.seen() =~= Seq::<AbsState>::empty());
            assert(sim.state@ =~= (AbsState {
                player: false,
                penalty: 0,
                p1: sim.state.p1_deck@,
                p2: sim.state.p2_deck@,
                pile: Seq::<Card>::empty(),
            }));
        }
        sim
    }

    /// Play one card. Returns `None` while the game goes on. Returns the
    /// finished result when the active player's deck is already empty (the
    /// finite outcome, nothing mutated) or when the new state repeats an
    /// earlier one exactly (the infinite outcome; the repeated card is still
    /// counted, as is a trick it completes).
    pub fn step(&mut self) -> (done: Option<GameResult>)
        requires
            old(self).wf(),
            old(self).running_inv(),
        ensures
            final(self).result.p1_start@ == old(self).result.p1_start@,
            final(self).result.p2_start@ == old(self).result.p2_start@,
            final(self).wf(),
            match done {
                None => {
                    &&& final(self).running_inv()
                    &&& old(self).state@.active().len() > 0
                    &&& final(self).state@ == step_spec(old(self).state@)
                    &&& final(self).result.cards == old(self).result.cards + 1
                    &&& final(self).result.tricks == old(self).result.tricks + (if trick_won(
                        old(self).state@,
                    ) {
                        1int
                    } else {
                        0int
                    })
                    &&& final(self).result.is_infinite == false
                    &&& final(self).seen() == old(self).seen().push(final(self).state@)
                    &&& forall|k: int|
                        0 <= k < old(self).seen().len() ==> old(self).seen()[k] != final(self).state@
                },
                Some(r) => {
                    &&& result_matches(r, final(self).result)
                    &&& if old(self).state@.active().len() == 0 {
                        &&& final(self).state@ == old(self).state@
                        &&& final(self).result == old(self).result
                        &&& final(self).seen() == old(self).seen()
                        &&& final(self).running_inv()
                        &&& r.is_infinite == false
                    } else {
                        &&& final(self).state@ == step_spec(old(self).state@)
                        &&& final(self).result.cards == old(self).result.cards + 1
                        &&& final(self).result.tricks == old(self).result.tricks + (if trick_won(
                            old(self).state@,
                        ) {
                            1int
                        } else {
                            0int
                        })
                        &&& final(self).result.is_infinite == true
                        &&& r.is_infinite == true
                        &&& final(self).seen() == old(self).seen().push(final(self).state@)
                        &&& exists|k: int|
                            0 <= k < old(self).seen().len() && old(self).seen()[k] == final(self).state@
                    }
                },
            },
    {
        let ghost pre = self.state@;
        let popped = if self.state.player {
            self.state.p2_deck.pop()
        } else {
            self.state.p1_deck.pop()
        };
        let played_card = match popped {
            Some(card) => card,
            None => {
                proof {
                    assert(self.state@ =~= pre);
                }
                return Some(self.result.duplicate());
            },
        };
        self.state.played_cards.push(played_card);

        let mut won_trick = false;
        if self.state.penalty_remaining == 0 {
            self.state.player = !self.state.player;
            self.state.penalty_remaining = played_card.weight();
        } else {
            if matches!(played_card, Card::Number) {
                self.state.penalty_remaining = self.state.penalty_remaining - 1;
                if self.state.penalty_remaining == 0 {
                    won_trick = true;
                    let mut new_deck = reversed(&self.state.played_cards);
                    if self.state.player {
                        new_deck.append(&mut self.state.p2_deck);
                        self.state.p2_deck = new_deck;
                    } else {
                        new_deck.append(&mut self.state.p1_deck);
                        self.state.p1_deck = new_deck;
                    }
                    self.state.played_cards = Vec::new();
                    self.state.player = !self.state.player;
                }
            } else {
                self.state.player = !self.state.player;
                self.state.penalty_remaining = played_card.weight();
            }
        }
        proof {
            assert(self.state@ =~= step_spec(pre));
            assert(won_trick == trick_won(pre));
            lemma_step_conserves_total(pre);
            lemma_step_penalty_bound(pre);
        }

        let repeated = seen_contains(&self.visited, &self.state);
        self.visited.push(self.state.snapshot());
        let n_after = self.visited.len();
        proof {
            assert(self.seen() =~= old(self).seen().push(self.state@));
            assert(self.result.cards + 1 == n_after);
            assert(usize::MAX <= u64::MAX);
        }
        self.result.cards = self.result.cards + 1;
        if won_trick {
            proof {
                assert(self.result.tricks < u64::MAX);
            }
            self.result.tricks = self.result.tricks + 1;
        }
        if repeated {
            proof {
                let k = choose|k: int|
                    0 <= k < old(self).visited@.len() && old(self).visited@[k]@ == self.state@;
                assert(old(self).seen()[k] == old(self).visited@[k]@);
            }
            self.result.is_infinite = true;
            Some(self.result.duplicate())
        } else {
            None
        }
    }

    /// Run the game to completion: step until the active player's deck is
    /// empty or the exact state repeats, and report the result. The states
    /// recorded beyond those already present are exactly the successive
    /// `step_spec` iterates of the state the run started from, each reached
    /// with a card left to play; the final state is the last iterate, the
    /// card counter counts the steps and the trick counter the completed
    /// payoffs. When the result is finite the active player's deck is empty
    /// and no observed state repeated; when it is infinite the final state
    /// equals some state observed earlier in this same run. Either way the
    /// run is no longer than the deal's state space allows (plus the one
    /// repeated step).
    pub fn simulate(&mut self) -> (r: GameResult)
        requires
            old(self).wf(),
            old(self).running_inv(),
        ensures
            final(self).wf(),
            final(self).result.p1_start@ == old(self).result.p1_start@,
            final(self).result.p2_start@ == old(self).result.p2_start@,
            result_matches(r, final(self).result),
            final(self).result.cards == final(self).seen().len(),
            final(self).result.tricks <= final(self).result.cards,
            final(self).seen().len() >= old(self).seen().len(),
            forall|i: int|
                0 <= i < old(self).seen().len() ==> final(self).seen()[i] == old(self).seen()[i],
            forall|i: int|
                old(self).seen().len() <= i < final(self).seen().len()
                    ==> (#[trigger] final(self).seen()[i])
                    == step_iter(old(self).state@, (i - old(self).seen().len() + 1) as nat),
            forall|k: nat|
                k < final(self).seen().len() - old(self).seen().len() ==> (#[trigger] step_iter(
                    old(self).state@,
                    k,
                )).active().len() > 0,
            final(self).state@ == step_iter(
                old(self).state@,
                (final(self).seen().len() - old(self).seen().len()) as nat,
            ),
            final(self).result.cards == old(self).result.cards + final(self).seen().len()
                - old(self).seen().len(),
            final(self).result.tricks == old(self).result.tricks + tricks_in(
                old(self).state@,
                (final(self).seen().len() - old(self).seen().len()) as nat,
            ),
            !r.is_infinite ==> {
                &&& final(self).state@.active().len() == 0
                &&& final(self).running_inv()
                &&& final(self).result.cards <= crate::bound::state_space_bound(
                    (final(self).result.p1_start@.len() + final(self).result.p2_start@.len()) as nat,
                )
            },
            r.is_infinite ==> {
                &&& final(self).seen().len() > 0
                &&& final(self).state@ == final(self).seen().last()
                &&& exists|k: int|
                    0 <= k < final(self).seen().len() - 1 && final(self).seen()[k] == final(self).state@
                &&& forall|i: int, j: int|
                    0 <= i < j < final(self).seen().len() - 1
                        ==> final(self).seen()[i] != final(self).seen()[j]
                &&& final(self).result.cards <= crate::bound::state_space_bound(
                    (final(self).result.p1_start@.len() + final(self).result.p2_start@.len()) as nat,
                ) + 1
            },
    {
        let ghost s0 = old(self).state@;
        let ghost k0 = old(self).seen().len() as int;
        loop
            invariant
                self.wf(),
                self.running_inv(),
                self.result.p1_start@ == old(self).result.p1_start@,
                self.result.p2_start@ == old(self).result.p2_start@,
                s0 == old(self).state@,
                k0 == old(self).seen().len(),
                self.seen().len() >= k0,
                forall|i: int| 0 <= i < k0 ==> self.seen()[i] == old(self).seen()[i],
                forall|i: int|
                    k0 <= i < self.seen().len() ==> (#[trigger] self.seen()[i]) == step_iter(
                        s0,
                        (i - k0 + 1) as nat,
                    ),
                forall|k: nat|
                    k < self.seen().len() - k0 ==> (#[trigger] step_iter(
                        s0,
                        k,
                    )).active().len() > 0,
                self.state@ == step_iter(s0, (self.seen().len() - k0) as nat),
                self.result.cards == old(self).result.cards + self.seen().len() - k0,
                self.result.tricks == old(self).result.tricks + tricks_in(
                    s0,
                    (self.seen().len() - k0) as nat,
                ),
            decreases usize::MAX - self.visited@.len(),
        {
            let ghost before = self.seen();
            let ghost len_before = self.visited@.len();
            let ghost pre_sim = *self;
            let stepped = self.step();
            proof {
                let played = match stepped {
                    Some(ref out) => out.is_infinite,
                    None => true,
                };
                if played {
                    let n_prev = (before.len() - k0) as nat;
                    assert(pre_sim.state@ == step_iter(s0, n_prev));
                    assert(step_iter(s0, (n_prev + 1) as nat) == step_spec(step_iter(s0, n_prev)));
                    assert(self.state@ == step_iter(s0, (n_prev + 1) as nat));
                    assert(tricks_in(s0, (n_prev + 1) as nat) == tricks_in(s0, n_prev) + (
                    if trick_won(step_iter(s0, n_prev)) {
                        1nat
                    } else {
                        0nat
                    }));
                    assert(self.seen() == before.push(self.state@));
                    assert forall|i: int|
                        k0 <= i < self.seen().len() implies (#[trigger] self.seen()[i]) == step_iter(
                        s0,
                        (i - k0 + 1) as nat,
                    ) by {
                        if i < before.len() {
                            assert(self.seen()[i] == before[i]);
                        }
                    }
                    assert forall|k: nat|
                        k < self.seen().len() - k0 implies (#[trigger] step_iter(
                        s0,
                        k,
                    )).active().len() > 0 by {
                        if k == n_prev {
                            assert(step_iter(s0, k) == pre_sim.state@);
                        }
                    }
                }
            }
            if let Some(out) = stepped {
                proof {
                    crate::bound::lemma_cards_bounded(pre_sim);
                    if out.is_infinite {
                        assert(self.seen().last() == self.state@);
                        assert(forall|k: int|
                            0 <= k < before.len() ==> self.seen()[k] == before[k]);
                    }
                }
                return out;
            }
            let n = self.visited.len();
            proof {
                assert(self.seen() == before.push(self.state@));
                assert(n == self.seen().len());
                assert(n == len_before + 1);
            }
        }
    }
}

/// A copy of a deck in reverse order.
fn reversed(v: &Vec<Card>) -> (r: Vec<Card>)
    ensures
        r@ == v@.reverse(),
{
    let n = v.len();
    let mut out: Vec<Card> = Vec::new();
    let mut i: usize = 0;
    while i < n
        invariant
            0 <= i <= n,
            n == v@.len(),
            out@.len() == i,
            forall|j: int| 0 <= j < i ==> out@[j] == v@[n - 1 - j],
        decreases n - i,
    {
        out.push(v[n - 1 - i]);
        i += 1;
    }
    proof {
        assert(out@ =~= v@.reverse());
    }
    out
}

} // verus!
