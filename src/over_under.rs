use vstd::prelude::*;
use crate::grid::{Grid, GridError};
use crate::market_specifiers::OverUnderSide;
use crate::payoff::{
    mean_payoff,
    settles_once,
    sign_payoff,
    split_payoff,
    LINE_LIMIT,
    LINE_SCALE,
    QUARTER_GOAL,
};

verus! {

/// The total goals of a score, in line units.
pub open spec fn total_units(home: int, away: int) -> int {
    LINE_SCALE * (home + away)
}

/// The payoff, in half units, of a bet on `side` against the single line
/// `target` when `total` was scored (both in line units): the over side wins
/// above the line, the under side below, and it is a push on the line.
pub open spec fn ou_leg_payoff(side: OverUnderSide, target: int, total: int) -> int {
    if side == OverUnderSide::Over {
        sign_payoff(total - target)
    } else {
        -sign_payoff(total - target)
    }
}

/// The payoff, in half units, of a bet on `side` with goal line `line` (in
/// line units) when the match ends `home` to `away`. A whole or half line is
/// settled once; any other line is half a stake on each of the legs a
/// quarter goal below and above it.
pub open spec fn ou_payoff(side: OverUnderSide, line: int, home: int, away: int) -> int {
    let total = total_units(home, away);
    if settles_once(line) {
        ou_leg_payoff(side, line, total)
    } else {
        mean_payoff(
            ou_leg_payoff(side, line - QUARTER_GOAL, total),
            ou_leg_payoff(side, line + QUARTER_GOAL, total),
        )
    }
}

/// The side whose payoffs above and below the line are `over_payoff` and
/// `under_payoff`.
pub open spec fn side_of_payoffs(over_payoff: i32) -> OverUnderSide {
    if over_payoff == 2 {
        OverUnderSide::Over
    } else {
        OverUnderSide::Under
    }
}

/// The over/under (total goals) market.
pub struct OverUnder {}

impl OverUnder {
    /// The grid of `grid_size` by `grid_size` cells whose every cell holds the
    /// payoff of a bet on `side` with a goal line of `goals` line units.
    pub fn get_payoff_grid(side: OverUnderSide, goals: i128, grid_size: usize) -> (r: Result<
        Grid,
        GridError,
    >)
        requires
            -LINE_LIMIT <= goals <= LINE_LIMIT,
        ensures
            r is Ok,
            r matches Ok(g) ==> g.wf() && g.size() == grid_size && forall|h: int, a: int|
                0 <= h < grid_size && 0 <= a < grid_size ==> #[trigger] g@[h][a] == ou_payoff(
                    side,
                    goals as int,
                    h,
                    a,
                ),
    {
        let mut payoff_grid = Grid::new(grid_size);
        match side {
            OverUnderSide::Over => {
                OverUnder::set_payoff(&mut payoff_grid, grid_size, goals, 2, -2)?;
            },
            OverUnderSide::Under => {
                OverUnder::set_payoff(&mut payoff_grid, grid_size, goals, -2, 2)?;
            },
        }
        Ok(payoff_grid)
    }

    /// The payoff of one cell, with `over_payoff` and `under_payoff` the
    /// payoffs above and below the line.
    fn cell_payoff(
        goals: i128,
        home_goals: usize,
        away_goals: usize,
        over_payoff: i32,
        under_payoff: i32,
    ) -> (r: i32)
        requires
            (over_payoff == 2 && under_payoff == -2) || (over_payoff == -2 && under_payoff == 2),
            -LINE_LIMIT <= goals <= LINE_LIMIT,
        ensures
            r == ou_payoff(
                side_of_payoffs(over_payoff),
                goals as int,
                home_goals as int,
                away_goals as int,
            ),
    {
        let total_goals = LINE_SCALE * (home_goals as i128 + away_goals as i128);
        if goals % LINE_SCALE == 0 || (2 * goals) % LINE_SCALE == 0 {
            // whole or half line
            proof {
                let s = LINE_SCALE as int;
                let g = goals as int;
                if g % s == 0 {
                    vstd::arithmetic::div_mod::lemma_fundamental_div_mod(g, s);
                    vstd::arithmetic::div_mod::lemma_mod_multiples_basic(2 * (g / s), s);
                    assert(2 * g == (2 * (g / s)) * s) by (nonlinear_arith)
                        requires
                            g == s * (g / s),
                    ;
                }
            }
            OverUnder::get_payoff(goals, total_goals, over_payoff, under_payoff)
        } else {
            // any other line: half the stake on each leg a quarter goal away
            let lower_payoff = OverUnder::get_payoff(
                goals - QUARTER_GOAL,
                total_goals,
                over_payoff,
                under_payoff,
            );
            let upper_payoff = OverUnder::get_payoff(
                goals + QUARTER_GOAL,
                total_goals,
                over_payoff,
                under_payoff,
            );
            split_payoff(lower_payoff, upper_payoff)
        }
    }

    /// Fills the cells of the first `grid_size` rows and columns with the
    /// payoff of their total; the other cells are left alone. A grid smaller
    /// than `grid_size` stops the fill at the first write outside it.
    fn set_payoff(
        payoff_grid: &mut Grid,
        grid_size: usize,
        goals: i128,
        over_payoff: i32,
        under_payoff: i32,
    ) -> (r: Result<(), GridError>)
        requires
            old(payoff_grid).wf(),
            (over_payoff == 2 && under_payoff == -2) || (over_payoff == -2 && under_payoff == 2),
            -LINE_LIMIT <= goals <= LINE_LIMIT,
        ensures
            final(payoff_grid).wf(),
            final(payoff_grid).size() == old(payoff_grid).size(),
            grid_size <= old(payoff_grid).size() ==> r is Ok && forall|h: int, a: int|
                0 <= h < old(payoff_grid).size() && 0 <= a < old(payoff_grid).size()
                    ==> #[trigger] final(payoff_grid)@[h][a] == if h < grid_size && a < grid_size {
                    ou_payoff(side_of_payoffs(over_payoff), goals as int, h, a) as i32
                } else {
                    old(payoff_grid)@[h][a]
                },
            grid_size > old(payoff_grid).size() ==> r matches Err(GridError::OutOfBounds { .. }),
    {
        let ghost n0 = payoff_grid.size();
        let ghost before = payoff_grid@;
        let ghost side = side_of_payoffs(over_payoff);
        let mut home_goals: usize = 0;
        while home_goals < grid_size
            invariant
                payoff_grid.wf(),
                payoff_grid.size() == n0,
                n0 == old(payoff_grid).size(),
                before == old(payoff_grid)@,
                (over_payoff == 2 && under_payoff == -2) || (over_payoff == -2 && under_payoff == 2),
                -LINE_LIMIT <= goals <= LINE_LIMIT,
                side == side_of_payoffs(over_payoff),
                home_goals <= grid_size,
                home_goals > 0 ==> grid_size <= n0,
                forall|h: int, a: int|
                    0 <= h < n0 && 0 <= a < n0 ==> #[trigger] payoff_grid@[h][a] == if h
                        < home_goals && a < grid_size {
                        ou_payoff(side, goals as int, h, a) as i32
                    } else {
                        before[h][a]
                    },
            decreases grid_size - home_goals,
        {
            let mut away_goals: usize = 0;
            while away_goals < grid_size
                invariant
                    payoff_grid.wf(),
                    payoff_grid.size() == n0,
                    n0 == old(payoff_grid).size(),
                    before == old(payoff_grid)@,
                n0 == old(payoff_grid).size(),
                before == old(payoff_grid)@,
                    (over_payoff == 2 && under_payoff == -2) || (over_payoff == -2 && under_payoff
                        == 2),
                    -LINE_LIMIT <= goals <= LINE_LIMIT,
                    side == side_of_payoffs(over_payoff),
                    home_goals < grid_size,
                    away_goals <= grid_size,
                    away_goals <= n0,
                    forall|h: int, a: int|
                        0 <= h < n0 && 0 <= a < n0 ==> #[trigger] payoff_grid@[h][a] == if (h
                            < home_goals && a < grid_size) || (h == home_goals && a < away_goals) {
                            ou_payoff(side, goals as int, h, a) as i32
                        } else {
                            before[h][a]
                        },
                decreases grid_size - away_goals,
            {
                let payoff = OverUnder::cell_payoff(
                    goals,
                    home_goals,
                    away_goals,
                    over_payoff,
                    under_payoff,
                );
                if let Err(e) = payoff_grid.set_payoff(home_goals, away_goals, payoff) {
                    return Err(e);
                }
                away_goals = away_goals + 1;
            }
            home_goals = home_goals + 1;
        }
        Ok(())
    }

    /// The payoff against the single line `target_goals`: `over_payoff` when
    /// more were scored, `under_payoff` when fewer, `0` on the line.
    fn get_payoff(target_goals: i128, total_goals: i128, over_payoff: i32, under_payoff: i32) -> (r:
        i32)
        ensures
            r == (if total_goals > target_goals {
                over_payoff as int
            } else if total_goals < target_goals {
                under_payoff as int
            } else {
                0
            }),
    {
        if total_goals > target_goals {
            over_payoff
        } else if total_goals < target_goals {
            under_payoff
        } else {
            0
        }
    }
}

/// A quarter goal line (an odd number `k` of quarter goals) pays the mean of
/// the two neighbouring half lines, a quarter goal below and above, which
/// each settle once, at every score.
pub proof fn lemma_quarter_goal_line_is_mean(side: OverUnderSide, k: int, home: int, away: int)
    requires
        k % 2 != 0,
    ensures
        !settles_once(k * QUARTER_GOAL),
        settles_once(k * QUARTER_GOAL - QUARTER_GOAL),
        settles_once(k * QUARTER_GOAL + QUARTER_GOAL),
        ou_payoff(side, k * QUARTER_GOAL, home, away) == mean_payoff(
            ou_payoff(side, k * QUARTER_GOAL - QUARTER_GOAL, home, away),
            ou_payoff(side, k * QUARTER_GOAL + QUARTER_GOAL, home, away),
        ),
{
    crate::payoff::lemma_quarter_lines(k);
}

} // verus!
