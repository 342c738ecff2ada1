use vstd::prelude::*;

verus! {

/// Lines (handicaps and goal lines) are held exactly, as integers in units
/// of 10^-18 goals: one goal is `LINE_SCALE` units.
pub const LINE_SCALE: i128 = 1_000_000_000_000_000_000;

/// A quarter goal, in line units.
pub const QUARTER_GOAL: i128 = 250_000_000_000_000_000;

/// The largest magnitude of a line, in line units (10^19 goals).
pub const LINE_LIMIT: i128 = 10_000_000_000_000_000_000_000_000_000_000_000_000;

/// The payoff, in half units, of a bet settled on `adjusted`, a goal margin
/// in line units: won when it is positive, a push at zero, lost below.
pub open spec fn sign_payoff(adjusted: int) -> int {
    if adjusted > 0 {
        2
    } else if adjusted == 0 {
        0
    } else {
        -2
    }
}

/// A line settles once when it is whole or half, that is when twice the
/// line is a whole number of goals; any other line is split into two legs,
/// a quarter goal below and a quarter goal above it.
pub open spec fn settles_once(line: int) -> bool {
    (2 * line) % (LINE_SCALE as int) == 0
}

/// The mean of two payoffs, each in half units.
pub open spec fn mean_payoff(lower: int, upper: int) -> int {
    (lower + upper) / 2
}

/// The comparator shared by every line-based market: `2` (won) for a
/// positive adjusted margin, `0` (push) at zero, `-2` (lost) below.
pub fn handicap_payoff_sign(adjusted: i128) -> (r: i32)
    ensures
        r == sign_payoff(adjusted as int),
{
    if adjusted > 0 {
        2
    } else if adjusted == 0 {
        0
    } else {
        -2
    }
}

/// Splits a payoff evenly over two legs: the mean of `lower` and `upper`,
/// each one of `2`, `0` and `-2`.
pub fn split_payoff(lower: i32, upper: i32) -> (r: i32)
    requires
        lower == 2 || lower == 0 || lower == -2,
        upper == 2 || upper == 0 || upper == -2,
    ensures
        r == mean_payoff(lower as int, upper as int),
{
    (lower + upper) / 2
}

/// An odd number `k` of quarter goals is a line that does not settle once,
/// and the lines a quarter goal either side of it do.
pub proof fn lemma_quarter_lines(k: int)
    requires
        k % 2 != 0,
    ensures
        !settles_once(k * QUARTER_GOAL),
        settles_once((k - 1) * QUARTER_GOAL),
        settles_once((k + 1) * QUARTER_GOAL),
        (k - 1) * QUARTER_GOAL == k * QUARTER_GOAL - QUARTER_GOAL,
        (k + 1) * QUARTER_GOAL == k * QUARTER_GOAL + QUARTER_GOAL,
{
    let s = LINE_SCALE as int;
    let j = (k - 1) / 2;
    vstd::arithmetic::div_mod::lemma_fundamental_div_mod(k - 1, 2);
    assert(k == 2 * j + 1);
    assert(2 * (k * QUARTER_GOAL) == j * s + s / 2);
    vstd::arithmetic::div_mod::lemma_mod_multiples_vanish(j, s / 2, s);
    vstd::arithmetic::div_mod::lemma_small_mod((s / 2) as nat, s as nat);
    assert(2 * ((k - 1) * QUARTER_GOAL) == j * s);
    vstd::arithmetic::div_mod::lemma_mod_multiples_basic(j, s);
    assert(2 * ((k + 1) * QUARTER_GOAL) == (j + 1) * s);
    vstd::arithmetic::div_mod::lemma_mod_multiples_basic(j + 1, s);
}
} // verus!
