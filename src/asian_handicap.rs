use vstd::prelude::*;
use crate::grid::{Grid, GridError};
use crate::market_specifiers::HomeAwaySide;
use crate::payoff::{
    handicap_payoff_sign,
    mean_payoff,
    settles_once,
    sign_payoff,
    split_payoff,
    LINE_LIMIT,
    LINE_SCALE,
    QUARTER_GOAL,
};

verus! {

/// The goal margin, in line units, from the chosen side's point of view.
pub open spec fn side_margin(is_home: bool, home: int, away: int) -> int {
    if is_home {
        LINE_SCALE * (home - away)
    } else {
        LINE_SCALE * (away - home)
    }
}

/// The payoff, in half units, of an Asian handicap bet with handicap `line`
/// (in line units) when the match ends `home` to `away`. A whole or half
/// line is settled once on the adjusted margin; any other line is half a
/// stake on each of the legs a quarter goal below and above it.
pub open spec fn ah_line_payoff(is_home: bool, line: int, home: int, away: int) -> int {
    let adjusted = side_margin(is_home, home, away) + line;
    if settles_once(line) {
        sign_payoff(adjusted)
    } else {
        mean_payoff(sign_payoff(adjusted - QUARTER_GOAL), sign_payoff(adjusted + QUARTER_GOAL))
    }
}

/// The payoff of a bet on `side` at handicap `line`.
pub open spec fn ah_payoff(side: HomeAwaySide, line: int, home: int, away: int) -> int {
    ah_line_payoff(side == HomeAwaySide::Home, line, home, away)
}

/// `n` is a multiple of `LINE_SCALE` exactly when `-n` is.
proof fn lemma_whole_negated(n: int)
    ensures
        (n % (LINE_SCALE as int) == 0) == ((-n) % (LINE_SCALE as int) == 0),
{
    let s = LINE_SCALE as int;
    if n % s == 0 {
        vstd::arithmetic::div_mod::lemma_fundamental_div_mod(n, s);
        vstd::arithmetic::div_mod::lemma_mod_multiples_basic(-(n / s), s);
        assert(-n == (-(n / s)) * s) by (nonlinear_arith)
            requires
                n == s * (n / s),
        ;
    }
    if (-n) % s == 0 {
        vstd::arithmetic::div_mod::lemma_fundamental_div_mod(-n, s);
        vstd::arithmetic::div_mod::lemma_mod_multiples_basic(-((-n) / s), s);
        assert(n == (-((-n) / s)) * s) by (nonlinear_arith)
            requires
                -n == s * ((-n) / s),
        ;
    }
}

/// The Asian handicap market.
pub struct AsianHandicap {}

impl AsianHandicap {
    /// The grid of `grid_size` by `grid_size` cells whose every cell holds the
    /// payoff of a bet on `side` with a handicap of `handicap` line units.
    pub fn get_payoff_grid(side: HomeAwaySide, handicap: i128, grid_size: usize) -> (r: Result<
        Grid,
        GridError,
    >)
        requires
            -LINE_LIMIT <= handicap <= LINE_LIMIT,
        ensures
            r is Ok,
            r matches Ok(g) ==> g.wf() && g.size() == grid_size && forall|h: int, a: int|
                0 <= h < grid_size && 0 <= a < grid_size ==> #[trigger] g@[h][a] == ah_payoff(
                    side,
                    handicap as int,
                    h,
                    a,
                ),
    {
        let mut payoff_grid = Grid::new(grid_size);
        match side {
            HomeAwaySide::Home => {
                AsianHandicap::set_payoff(&mut payoff_grid, handicap, grid_size, true)?;
            },
            HomeAwaySide::Away => {
                AsianHandicap::set_payoff(&mut payoff_grid, handicap, grid_size, false)?;
            },
        }
        Ok(payoff_grid)
    }

    /// The margin, in line units, of the chosen side adjusted by `line`.
    fn adjusted_score(is_home: bool, home_goals: usize, away_goals: usize, line: i128) -> (r: i128)
        requires
            -2 * LINE_LIMIT <= line <= 2 * LINE_LIMIT,
        ensures
            r == side_margin(is_home, home_goals as int, away_goals as int) + line,
    {
        if is_home {
            LINE_SCALE * (home_goals as i128 - away_goals as i128) + line
        } else {
            LINE_SCALE * (away_goals as i128 - home_goals as i128) + line
        }
    }

    /// The payoff of one cell.
    fn cell_payoff(handicap: i128, is_home: bool, home_goals: usize, away_goals: usize) -> (r: i32)
        requires
            -LINE_LIMIT <= handicap <= LINE_LIMIT,
        ensures
            r == ah_line_payoff(is_home, handicap as int, home_goals as int, away_goals as int),
    {
        let adjusted = AsianHandicap::adjusted_score(is_home, home_goals, away_goals, handicap);
        if handicap % LINE_SCALE == 0 {
            // whole line: a push is possible
            proof {
                let s = LINE_SCALE as int;
                let h = handicap as int;
                lemma_whole_negated(h);
                if h >= 0 {
                    vstd::arithmetic::div_mod::lemma_fundamental_div_mod(h, s);
                    vstd::arithmetic::div_mod::lemma_mod_multiples_basic(2 * (h / s), s);
                    assert(2 * h == (2 * (h / s)) * s) by (nonlinear_arith)
                        requires
                            h == s * (h / s),
                    ;
                } else {
                    vstd::arithmetic::div_mod::lemma_fundamental_div_mod(-h, s);
                    vstd::arithmetic::div_mod::lemma_mod_multiples_basic(-2 * ((-h) / s), s);
                    assert(2 * h == (-2 * ((-h) / s)) * s) by (nonlinear_arith)
                        requires
                            -h == s * ((-h) / s),
                    ;
                }
            }
            handicap_payoff_sign(adjusted)
        } else if (2 * handicap) % LINE_SCALE == 0 {
            // half line
            proof {
                lemma_whole_negated(2 * handicap as int);
            }
            handicap_payoff_sign(adjusted)
        } else {
            // any other line: half the stake on each leg a quarter goal away
            proof {
                lemma_whole_negated(2 * handicap as int);
            }
            let lower = handicap_payoff_sign(adjusted - QUARTER_GOAL);
            let upper = handicap_payoff_sign(adjusted + QUARTER_GOAL);
            split_payoff(lower, upper)
        }
    }

    /// Fills the cells of the first `grid_size` rows and columns with the
    /// payoff of their score; the other cells are left alone. A grid smaller
    /// than `grid_size` stops the fill at the first write outside it.
    fn set_payoff(payoff_grid: &mut Grid, handicap: i128, grid_size: usize, is_home: bool) -> (r:
        Result<(), GridError>)
        requires
            old(payoff_grid).wf(),
            -LINE_LIMIT <= handicap <= LINE_LIMIT,
        ensures
            final(payoff_grid).wf(),
            final(payoff_grid).size() == old(payoff_grid).size(),
            grid_size <= old(payoff_grid).size() ==> r is Ok && forall|h: int, a: int|
                0 <= h < old(payoff_grid).size() && 0 <= a < old(payoff_grid).size()
                    ==> #[trigger] final(payoff_grid)@[h][a] == if h < grid_size && a < grid_size {
                    ah_line_payoff(is_home, handicap as int, h, a) as i32
                } else {
                    old(payoff_grid)@[h][a]
                },
            grid_size > old(payoff_grid).size() ==> r matches Err(GridError::OutOfBounds { .. }),
    {
        let ghost n0 = payoff_grid.size();
        let ghost before = payoff_grid@;
        let mut home_goals: usize = 0;
        while home_goals < grid_size
            invariant
                payoff_grid.wf(),
                payoff_grid.size() == n0,
                n0 == old(payoff_grid).size(),
                before == old(payoff_grid)@,
                -LINE_LIMIT <= handicap <= LINE_LIMIT,
                home_goals <= grid_size,
                home_goals > 0 ==> grid_size <= n0,
                forall|h: int, a: int|
                    0 <= h < n0 && 0 <= a < n0 ==> #[trigger] payoff_grid@[h][a] == if h
                        < home_goals && a < grid_size {
                        ah_line_payoff(is_home, handicap as int, h, a) as i32
                    } else {
                        before[h][a]
                    },
            decreases grid_size - home_goals,
        {
            let mut away_goals: usize = 0;
            while away_goals < grid_size
                invariant
                    payoff_grid.wf(),
                    payoff_grid.size() == n0,
                    n0 == old(payoff_grid).size(),
                    before == old(payoff_grid)@,
                n0 == old(payoff_grid).size(),
                before == old(payoff_grid)@,
                    -LINE_LIMIT <= handicap <= LINE_LIMIT,
                    home_goals < grid_size,
                    away_goals <= grid_size,
                    away_goals <= n0,
                    forall|h: int, a: int|
                        0 <= h < n0 && 0 <= a < n0 ==> #[trigger] payoff_grid@[h][a] == if (h
                            < home_goals && a < grid_size) || (h == home_goals && a < away_goals) {
                            ah_line_payoff(is_home, handicap as int, h, a) as i32
                        } else {
                            before[h][a]
                        },
                decreases grid_size - away_goals,
            {
                let payoff = AsianHandicap::cell_payoff(handicap, is_home, home_goals, away_goals);
                if let Err(e) = payoff_grid.set_payoff(home_goals, away_goals, payoff) {
                    return Err(e);
                }
                away_goals = away_goals + 1;
            }
            home_goals = home_goals + 1;
        }
        Ok(())
    }
}

/// Backing the other side at the negated line pays the opposite: for every
/// line and every score, `payoff(Home, h) == -payoff(Away, -h)`.
pub proof fn lemma_opposite_side_negated_line(line: int, home: int, away: int)
    ensures
        ah_payoff(HomeAwaySide::Home, line, home, away) == -ah_payoff(
            HomeAwaySide::Away,
            -line,
            home,
            away,
        ),
{
    lemma_whole_negated(2 * line);
    assert(2 * (-line) == -(2 * line));
}

/// Backing the other side at the same line on the mirrored score pays the
/// same: `payoff(Home, h, home, away) == payoff(Away, h, away, home)`.
pub proof fn lemma_mirrored_score(line: int, home: int, away: int)
    ensures
        ah_payoff(HomeAwaySide::Home, line, home, away) == ah_payoff(
            HomeAwaySide::Away,
            line,
            away,
            home,
        ),
{
}

/// On a whole or half line, switching the side and negating the line gives
/// the same payoff where the adjusted margin is zero (a push).
pub proof fn lemma_switched_side_negated_line_at_push(line: int, home: int, away: int)
    requires
        settles_once(line),
        side_margin(true, home, away) + line == 0,
    ensures
        ah_payoff(HomeAwaySide::Home, line, home, away) == ah_payoff(
            HomeAwaySide::Away,
            -line,
            home,
            away,
        ),
        ah_payoff(HomeAwaySide::Home, line, home, away) == 0,
{
    lemma_whole_negated(2 * line);
    assert(2 * (-line) == -(2 * line));
}

/// A quarter line (an odd number `k` of quarter goals) pays the mean of the
/// two neighbouring half lines, a quarter goal below and above, which each
/// settle once, at every score.
pub proof fn lemma_quarter_handicap_is_mean(side: HomeAwaySide, k: int, home: int, away: int)
    requires
        k % 2 != 0,
    ensures
        !settles_once(k * QUARTER_GOAL),
        settles_once(k * QUARTER_GOAL - QUARTER_GOAL),
        settles_once(k * QUARTER_GOAL + QUARTER_GOAL),
        ah_payoff(side, k * QUARTER_GOAL, home, away) == mean_payoff(
            ah_payoff(side, k * QUARTER_GOAL - QUARTER_GOAL, home, away),
            ah_payoff(side, k * QUARTER_GOAL + QUARTER_GOAL, home, away),
        ),
{
    crate::payoff::lemma_quarter_lines(k);
}

} // verus!
