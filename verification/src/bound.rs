//! The pigeonhole behind termination: a deal of a fixed size can only reach
//! finitely many distinct states, so a run that never repeats a state is no
//! longer than that explicit bound. Each state is given an injective integer
//! code below the bound; a duplicate-free run then cannot outnumber the
//! codes.

use vstd::prelude::*;
use vstd::seq_lib::seq_to_set_is_finite;
use vstd::set_lib::{lemma_int_range, lemma_len_subset, set_int_range};
use crate::card::Card;
use crate::game::{AbsState, GameSim};

verus! {

/// A card as one code digit.
pub open spec fn card_digit(c: Card) -> int {
    match c {
        Card::Number => 0,
        Card::Jack => 1,
        Card::Queen => 2,
        Card::King => 3,
        Card::Ace => 4,
    }
}

/// The bijective base-5 code of a card sequence: 0 only for the empty
/// sequence, and distinct sequences get distinct codes.
pub open spec fn seq_code(s: Seq<Card>) -> int
    decreases s.len(),
{
    if s.len() == 0 {
        0
    } else {
        1 + card_digit(s.last()) + 5 * seq_code(s.drop_last())
    }
}

/// A strict upper bound on the code of any sequence of at most `n` cards.
pub open spec fn seq_cap(n: nat) -> int
    decreases n,
{
    if n == 0 {
        1
    } else {
        5 * seq_cap((n - 1) as nat) + 1
    }
}

proof fn lemma_seq_code_nonneg(s: Seq<Card>)
    ensures
        seq_code(s) >= 0,
        seq_code(s) == 0 <==> s.len() == 0,
    decreases s.len(),
{
    if s.len() > 0 {
        lemma_seq_code_nonneg(s.drop_last());
    }
}

proof fn lemma_seq_cap_monotone(a: nat, b: nat)
    requires
        a <= b,
    ensures
        1 <= seq_cap(a) <= seq_cap(b),
    decreases b,
{
    if b > 0 {
        if a == b {
            lemma_seq_cap_monotone((a - 1) as nat, (b - 1) as nat);
        } else {
            lemma_seq_cap_monotone(a, (b - 1) as nat);
        }
    }
}

proof fn lemma_seq_code_bound(s: Seq<Card>, n: nat)
    requires
        s.len() <= n,
    ensures
        0 <= seq_code(s) < seq_cap(n),
    decreases n,
{
    lemma_seq_code_nonneg(s);
    if s.len() == 0 {
        lemma_seq_cap_monotone(0, n);
    } else {
        lemma_seq_code_bound(s.drop_last(), (n - 1) as nat);
    }
}

proof fn lemma_seq_code_injective(a: Seq<Card>, b: Seq<Card>)
    requires
        seq_code(a) == seq_code(b),
    ensures
        a == b,
    decreases a.len(),
{
    lemma_seq_code_nonneg(a);
    lemma_seq_code_nonneg(b);
    if a.len() == 0 {
        assert(a =~= b);
    } else {
        lemma_seq_code_nonneg(a.drop_last());
        lemma_seq_code_nonneg(b.drop_last());
        assert(card_digit(a.last()) == card_digit(b.last()));
        assert(a.last() == b.last());
        lemma_seq_code_injective(a.drop_last(), b.drop_last());
        assert(a.len() == b.len());
        assert forall|i: int| 0 <= i < a.len() implies a[i] == b[i] by {
            if i < a.len() - 1 {
                assert(a[i] == a.drop_last()[i]);
                assert(b[i] == b.drop_last()[i]);
            }
        }
        assert(a =~= b);
    }
}

/// The injective code of a whole state of a deal of `t` cards.
pub open spec fn state_code(s: AbsState, t: nat) -> int {
    let c = seq_cap(t);
    ((seq_code(s.p1) + c * (seq_code(s.p2) + c * seq_code(s.pile))) * 5 + s.penalty) * 2 + (
    if s.player {
        1int
    } else {
        0int
    })
}

/// How many distinct states a deal of `t` cards can possibly reach: an
/// over-count, but finite and explicit.
pub open spec fn state_space_bound(t: nat) -> int {
    10 * seq_cap(t) * seq_cap(t) * seq_cap(t)
}

proof fn lemma_state_code_bound(s: AbsState, t: nat)
    requires
        s.total() == t,
        s.penalty <= 4,
    ensures
        0 <= state_code(s, t) < state_space_bound(t),
{
    let c = seq_cap(t);
    lemma_seq_cap_monotone(0, t);
    lemma_seq_code_bound(s.p1, t);
    lemma_seq_code_bound(s.p2, t);
    lemma_seq_code_bound(s.pile, t);
    let e1 = seq_code(s.p1);
    let e2 = seq_code(s.p2);
    let e3 = seq_code(s.pile);
    let p = s.penalty as int;
    let bit: int = if s.player {
        1
    } else {
        0
    };
    assert(0 <= ((e1 + c * (e2 + c * e3)) * 5 + p) * 2 + bit < 10 * c * c * c)
        by (nonlinear_arith)
        requires
            0 <= e1 < c,
            0 <= e2 < c,
            0 <= e3 < c,
            0 <= p <= 4,
            0 <= bit <= 1,
    ;
    assert(state_code(s, t) == ((e1 + c * (e2 + c * e3)) * 5 + p) * 2 + bit);
    assert(state_space_bound(t) == 10 * c * c * c);
}

proof fn lemma_state_code_injective(a: AbsState, b: AbsState, t: nat)
    requires
        a.total() == t,
        b.total() == t,
        a.penalty <= 4,
        b.penalty <= 4,
        state_code(a, t) == state_code(b, t),
    ensures
        a == b,
{
    let c = seq_cap(t);
    lemma_seq_cap_monotone(0, t);
    lemma_seq_code_bound(a.p1, t);
    lemma_seq_code_bound(a.p2, t);
    lemma_seq_code_bound(a.pile, t);
    lemma_seq_code_bound(b.p1, t);
    lemma_seq_code_bound(b.p2, t);
    lemma_seq_code_bound(b.pile, t);
    let a1 = seq_code(a.p1);
    let a2 = seq_code(a.p2);
    let a3 = seq_code(a.pile);
    let b1 = seq_code(b.p1);
    let b2 = seq_code(b.p2);
    let b3 = seq_code(b.pile);
    let ta = a1 + c * (a2 + c * a3);
    let tb = b1 + c * (b2 + c * b3);
    // the bit and the penalty peel off linearly; the triple then splits
    // digit by digit because each code is below the cap
    assert((ta * 5 + a.penalty) * 2 + (if a.player { 1int } else { 0int })
        == (tb * 5 + b.penalty) * 2 + (if b.player { 1int } else { 0int }));
    assert(a.player == b.player && a.penalty == b.penalty && ta == tb) by (nonlinear_arith)
        requires
            0 <= a.penalty <= 4,
            0 <= b.penalty <= 4,
            (ta * 5 + a.penalty) * 2 + (if a.player { 1int } else { 0int })
                == (tb * 5 + b.penalty) * 2 + (if b.player { 1int } else { 0int }),
    ;
    assert(a1 == b1 && a2 == b2 && a3 == b3) by (nonlinear_arith)
        requires
            0 <= a1 < c,
            0 <= a2 < c,
            0 <= a3 < c,
            0 <= b1 < c,
            0 <= b2 < c,
            0 <= b3 < c,
            a1 + c * (a2 + c * a3) == b1 + c * (b2 + c * b3),
    ;
    lemma_seq_code_injective(a.p1, b.p1);
    lemma_seq_code_injective(a.p2, b.p2);
    lemma_seq_code_injective(a.pile, b.pile);
    assert(a =~= b);
}

/// The pigeonhole: pairwise distinct states of one deal of `t` cards, with
/// penalties in range, never outnumber the state space bound.
pub proof fn lemma_distinct_states_bounded(states: Seq<AbsState>, t: nat)
    requires
        forall|i: int, j: int| 0 <= i < j < states.len() ==> states[i] != states[j],
        forall|i: int|
            0 <= i < states.len() ==> (#[trigger] states[i]).total() == t && states[i].penalty
                <= 4,
    ensures
        states.len() <= state_space_bound(t),
{
    let codes = states.map_values(|s: AbsState| state_code(s, t));
    let hole = state_space_bound(t);
    assert(codes.no_duplicates()) by {
        assert forall|i: int, j: int|
            0 <= i < j < codes.len() implies codes[i] != codes[j] by {
            if codes[i] == codes[j] {
                lemma_state_code_injective(states[i], states[j], t);
            }
        }
    }
    codes.unique_seq_to_set();
    seq_to_set_is_finite(codes);
    let c = seq_cap(t);
    lemma_seq_cap_monotone(0, t);
    assert(hole >= 1) by (nonlinear_arith)
        requires
            c >= 1,
            hole == 10 * c * c * c,
    ;
    lemma_int_range(0, hole);
    assert(codes.to_set().subset_of(set_int_range(0, hole))) by {
        assert forall|x: int| codes.to_set().contains(x) implies set_int_range(
            0,
            hole,
        ).contains(x) by {
            let i = choose|i: int| 0 <= i < codes.len() && codes[i] == x;
            lemma_state_code_bound(states[i], t);
        }
    }
    lemma_len_subset(codes.to_set(), set_int_range(0, hole));
}

/// While a simulation runs, its card counter never exceeds the state space
/// of its deal: together with the distinctness of the recorded states this
/// bounds any run to finitely many steps.
pub proof fn lemma_cards_bounded(sim: GameSim)
    requires
        sim.running_inv(),
    ensures
        sim.result.cards <= state_space_bound(
            (sim.result.p1_start@.len() + sim.result.p2_start@.len()) as nat,
        ),
{
    lemma_distinct_states_bounded(
        sim.seen(),
        (sim.result.p1_start@.len() + sim.result.p2_start@.len()) as nat,
    );
}

} // verus!
