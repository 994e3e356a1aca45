//! The rule that takes one cell from a generation to the next.
//!
//! A cell looks at its up to eight neighbours and counts those of player A
//! and those of player B.  A live cell stays while its own side leads by two
//! or three, or by one with at least two of its own around it.  An empty cell
//! is born to the player that has exactly three neighbours there while the
//! other has not; when both have three, a coin decides.

use vstd::prelude::*;
use crate::cell::Occupant;

verus! {

/// Whether a live cell stays alive with `own` neighbours of its side and
/// `other` of the opposing side.
pub open spec fn survives(own: int, other: int) -> bool {
    own - other == 2 || own - other == 3 || (own - other == 1 && own >= 2)
}

/// Whether both players claim the birth, so that a coin has to decide.
pub open spec fn contested(current: Occupant, a: int, b: int) -> bool {
    current == Occupant::Empty && a == 3 && b == 3
}

/// The player a coin gives a contested birth to: A on zero, B otherwise.
pub open spec fn coin_winner(coin: int) -> Occupant {
    if coin == 0 {
        Occupant::PlayerA
    } else {
        Occupant::PlayerB
    }
}

/// The next occupant of a cell that holds `current` and has `a` neighbours of
/// player A and `b` of player B.  `tie_winner` is used only for a contested
/// birth.
pub open spec fn evolve(current: Occupant, a: int, b: int, tie_winner: Occupant) -> Occupant {
    match current {
        Occupant::PlayerA => if survives(a, b) {
            Occupant::PlayerA
        } else {
            Occupant::Empty
        },
        Occupant::PlayerB => if survives(b, a) {
            Occupant::PlayerB
        } else {
            Occupant::Empty
        },
        Occupant::Empty => if a == 3 && b != 3 {
            Occupant::PlayerA
        } else if b == 3 && a != 3 {
            Occupant::PlayerB
        } else if a == 3 && b == 3 {
            tie_winner
        } else {
            Occupant::Empty
        },
    }
}

/// Whether `next` may follow `current` under the rule: it is what the rule
/// gives with the coin falling on one side or on the other.
pub open spec fn may_follow(current: Occupant, a: int, b: int, next: Occupant) -> bool {
    next == evolve(current, a, b, Occupant::PlayerA) || next == evolve(current, a, b, Occupant::PlayerB)
}

/// The player that wins a contested birth on this coin.
pub fn tie_break(coin: u8) -> (winner: Occupant)
    ensures
        winner == coin_winner(coin as int),
{
    if coin == 0 {
        Occupant::PlayerA
    } else {
        Occupant::PlayerB
    }
}

/// Whether a coin has to decide what this cell becomes.
pub fn is_contested(current: Occupant, a: u8, b: u8) -> (tie: bool)
    ensures
        tie == contested(current, a as int, b as int),
{
    current == Occupant::Empty && a == 3 && b == 3
}

/// Whether a live cell with these neighbour counts stays alive.
pub fn stays_alive(own: u8, other: u8) -> (alive: bool)
    ensures
        alive == survives(own as int, other as int),
{
    own > other && (own - other == 2 || own - other == 3 || (own - other == 1 && own >= 2))
}

/// Applies the rule to one cell.
pub fn next_occupant(current: Occupant, a: u8, b: u8, tie_winner: Occupant) -> (next: Occupant)
    ensures
        next == evolve(current, a as int, b as int, tie_winner),
{
    match current {
        Occupant::PlayerA => if stays_alive(a, b) {
            Occupant::PlayerA
        } else {
            Occupant::Empty
        },
        Occupant::PlayerB => if stays_alive(b, a) {
            Occupant::PlayerB
        } else {
            Occupant::Empty
        },
        Occupant::Empty => if a == 3 && b != 3 {
            Occupant::PlayerA
        } else if b == 3 && a != 3 {
            Occupant::PlayerB
        } else if a == 3 && b == 3 {
            tie_winner
        } else {
            Occupant::Empty
        },
    }
}

/// The rule treats both players alike: with the players exchanged in the
/// cell, in the counts and in the coin, the outcome is exchanged too.
pub proof fn lemma_evolve_symmetric(current: Occupant, a: int, b: int, tie_winner: Occupant)
    ensures
        evolve(current.swapped(), b, a, tie_winner.swapped()) == evolve(
            current,
            a,
            b,
            tie_winner,
        ).swapped(),
{
}

/// Outside a contested birth the coin has no say.
pub proof fn lemma_coin_only_decides_ties(current: Occupant, a: int, b: int, w1: Occupant, w2: Occupant)
    requires
        !contested(current, a, b),
    ensures
        evolve(current, a, b, w1) == evolve(current, a, b, w2),
{
}

} // verus!
