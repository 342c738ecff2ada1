use vstd::prelude::*;
use crate::grid::{Grid, GridError};
use crate::market_specifiers::HomeAwayDrawSide;

verus! {

/// The payoff, in half units, of a three-way bet on `side` when the match
/// ends `home` to `away`: won (`2`) when the side's outcome happened, else
/// lost (`-2`).
pub open spec fn wdw_payoff(side: HomeAwayDrawSide, home: int, away: int) -> int {
    if home > away {
        if side == HomeAwayDrawSide::Home { 2 } else { -2 }
    } else if away > home {
        if side == HomeAwayDrawSide::Away { 2 } else { -2 }
    } else {
        if side == HomeAwayDrawSide::Draw { 2 } else { -2 }
    }
}

/// The payoff at `home` to `away` given the payoff of each outcome.
pub open spec fn outcome_payoff(home: int, away: int, home_payoff: i32, away_payoff: i32, draw_payoff: i32) -> i32 {
    if home > away {
        home_payoff
    } else if away > home {
        away_payoff
    } else {
        draw_payoff
    }
}

/// The win/draw/win market.
pub struct WinDrawWin {}

impl WinDrawWin {
    /// The grid of `grid_size` by `grid_size` cells whose every cell holds the
    /// payoff of a bet on `side` at that score.
    pub fn get_payoff_grid(side: HomeAwayDrawSide, grid_size: usize) -> (r: Result<Grid, GridError>)
        ensures
            r is Ok,
            r matches Ok(g) ==> g.wf() && g.size() == grid_size && forall|h: int, a: int|
                0 <= h < grid_size && 0 <= a < grid_size ==> #[trigger] g@[h][a] == wdw_payoff(
                    side,
                    h,
                    a,
                ),
    {
        let mut payoff_grid = Grid::new(grid_size);
        match side {
            HomeAwayDrawSide::Home => {
                WinDrawWin::set_payoff(&mut payoff_grid, grid_size, 2, -2, -2)?;
            },
            HomeAwayDrawSide::Away => {
                WinDrawWin::set_payoff(&mut payoff_grid, grid_size, -2, 2, -2)?;
            },
            HomeAwayDrawSide::Draw => {
                WinDrawWin::set_payoff(&mut payoff_grid, grid_size, -2, -2, 2)?;
            },
        }
        Ok(payoff_grid)
    }

    /// Fills the cells of the first `grid_size` rows and columns with
    /// `home_payoff`, `away_payoff` or `draw_payoff` after the outcome of
    /// their score; the other cells are left alone. A grid smaller than
    /// `grid_size` stops the fill at the first write outside it.
    fn set_payoff(
        payoff_grid: &mut Grid,
        grid_size: usize,
        home_payoff: i32,
        away_payoff: i32,
        draw_payoff: i32,
    ) -> (r: Result<(), GridError>)
        requires
            old(payoff_grid).wf(),
        ensures
            final(payoff_grid).wf(),
            final(payoff_grid).size() == old(payoff_grid).size(),
            grid_size <= old(payoff_grid).size() ==> r is Ok && forall|h: int, a: int|
                0 <= h < old(payoff_grid).size() && 0 <= a < old(payoff_grid).size()
                    ==> #[trigger] final(payoff_grid)@[h][a] == if h < grid_size && a < grid_size {
                    outcome_payoff(h, a, home_payoff, away_payoff, draw_payoff)
                } else {
                    old(payoff_grid)@[h][a]
                },
            grid_size > old(payoff_grid).size() ==> r matches Err(GridError::OutOfBounds { .. }),
    {
        let ghost n0 = payoff_grid.size();
        let ghost before = payoff_grid@;
        let mut home_goals: usize = 0;
        while home_goals < grid_size
            invariant
                payoff_grid.wf(),
                payoff_grid.size() == n0,
                n0 == old(payoff_grid).size(),
                before == old(payoff_grid)@,
                home_goals <= grid_size,
                home_goals > 0 ==> grid_size <= n0,
                forall|h: int, a: int|
                    0 <= h < n0 && 0 <= a < n0 ==> #[trigger] payoff_grid@[h][a] == if h
                        < home_goals && a < grid_size {
                        outcome_payoff(h, a, home_payoff, away_payoff, draw_payoff)
                    } else {
                        before[h][a]
                    },
            decreases grid_size - home_goals,
        {
            let mut away_goals: usize = 0;
            while away_goals < grid_size
                invariant
                    payoff_grid.wf(),
                    payoff_grid.size() == n0,
                    n0 == old(payoff_grid).size(),
                    before == old(payoff_grid)@,
                n0 == old(payoff_grid).size(),
                before == old(payoff_grid)@,
                    home_goals < grid_size,
                    away_goals <= grid_size,
                    away_goals <= n0,
                    forall|h: int, a: int|
                        0 <= h < n0 && 0 <= a < n0 ==> #[trigger] payoff_grid@[h][a] == if (h
                            < home_goals && a < grid_size) || (h == home_goals && a < away_goals) {
                            outcome_payoff(h, a, home_payoff, away_payoff, draw_payoff)
                        } else {
                            before[h][a]
                        },
                decreases grid_size - away_goals,
            {
                if home_goals > away_goals {
                    if let Err(e) = payoff_grid.set_payoff(home_goals, away_goals, home_payoff) {
                        return Err(e);
                    }
                } else if away_goals > home_goals {
                    if let Err(e) = payoff_grid.set_payoff(home_goals, away_goals, away_payoff) {
                        return Err(e);
                    }
                } else {
                    if let Err(e) = payoff_grid.set_payoff(home_goals, away_goals, draw_payoff) {
                        return Err(e);
                    }
                }
                away_goals = away_goals + 1;
            }
            home_goals = home_goals + 1;
        }
        Ok(())
    }
}

/// At every cell of a grid of any size, exactly one of the three sides wins
/// and the other two lose: the three payoffs sum to one lost stake.
pub proof fn lemma_one_side_wins(grid_size: int, home: int, away: int)
    requires
        grid_size >= 1,
        0 <= home < grid_size,
        0 <= away < grid_size,
    ensures
        wdw_payoff(HomeAwayDrawSide::Home, home, away) + wdw_payoff(HomeAwayDrawSide::Away, home, away)
            + wdw_payoff(HomeAwayDrawSide::Draw, home, away) == -2,
        forall|side: HomeAwayDrawSide| #[trigger] wdw_payoff(side, home, away) == 2 || wdw_payoff(
            side,
            home,
            away,
        ) == -2,
{
}

} // verus!
