use payoff_grid::asian_handicap::AsianHandicap;
use payoff_grid::grid::Grid;
use payoff_grid::market_specifiers::{HomeAwayDrawSide, HomeAwaySide, OverUnderSide};
use payoff_grid::over_under::OverUnder;
use payoff_grid::payoff::QUARTER_GOAL;
use payoff_grid::win_draw_win::WinDrawWin;

/// A line of a whole number of quarter goals, in line units.
fn line_units(line: f32) -> i128 {
    let q = line * 4.0;
    assert_eq!(q, q.round(), "{} is not a whole number of quarter goals", line);
    q as i128 * QUARTER_GOAL
}

/// Checks every cell of a 10 by 10 grid, read through its structured view,
/// against `payoff_calc` of the cell's key (a goal difference or a total).
fn check_grid<K, F>(grid: &Grid, key: K, payoff_calc: F)
where
    K: Fn(f64, f64) -> f64,
    F: Fn(f64) -> f64,
{
    let payoff_grid = grid.structured_view().payoff_grid;
    for home_goals in 0..10usize {
        for away_goals in 0..10usize {
            let expected_payoff = payoff_calc(key(home_goals as f64, away_goals as f64));
            match payoff_grid.get(&home_goals) {
                Some(inner_grid) => match inner_grid.get(&away_goals) {
                    Some(actual_payoff) => {
                        let actual_payoff = *actual_payoff as f64 / 2.0;
                        assert_eq!(
                            actual_payoff, expected_payoff,
                            "Expect {}:{} payoff to be {} but got {}",
                            home_goals, away_goals, expected_payoff, actual_payoff
                        );
                    }
                    None => panic!("Couldn't find payoff for {} away goals", away_goals),
                },
                None => panic!("Couldn't find payoff for {} home goals", home_goals),
            }
        }
    }
}

fn check_ah<F: Fn(f64) -> f64>(side: HomeAwaySide, handicap: f32, payoff_calc: F) {
    let ah = AsianHandicap::get_payoff_grid(side, line_units(handicap), 10).unwrap();
    check_grid(&ah, |h, a| h - a, payoff_calc);
}

fn check_ou<F: Fn(f64) -> f64>(side: OverUnderSide, goals: f32, payoff_calc: F) {
    let ou = OverUnder::get_payoff_grid(side, line_units(goals), 10).unwrap();
    check_grid(&ou, |h, a| h + a, payoff_calc);
}

fn check_wdw<F: Fn(f64) -> f64>(side: HomeAwayDrawSide, payoff_calc: F) {
    let wdw = WinDrawWin::get_payoff_grid(side, 10).unwrap();
    check_grid(&wdw, |h, a| h - a, payoff_calc);
}

#[test]
fn test_home_payoff_grid_zero_hdp() {
    check_ah(HomeAwaySide::Home, 0.0, |result: f64| {
        if result == 0.0 {
            0.0
        } else if result > 0.0 {
            1.0
        } else {
            -1.0
        }
    });
}

#[test]
fn test_home_payoff_grid_pos_half_hdp() {
    check_ah(HomeAwaySide::Home, 0.5, |result: f64| if result > -0.5 { 1.0 } else { -1.0 });
}

#[test]
fn test_home_payoff_grid_neg_half_hdp() {
    check_ah(HomeAwaySide::Home, -0.5, |result: f64| if result > 0.5 { 1.0 } else { -1.0 });
}

#[test]
fn test_home_payoff_grid_pos_quarter_hdp() {
    check_ah(HomeAwaySide::Home, 0.25, |result: f64| {
        if result == 0.0 {
            0.5
        } else if result > 0.5 {
            1.0
        } else {
            -1.0
        }
    });
}

#[test]
fn test_home_payoff_grid_neg_quarter_hdp() {
    check_ah(HomeAwaySide::Home, -0.25, |result: f64| {
        if result == 0.0 {
            -0.5
        } else if result > 0.0 {
            1.0
        } else {
            -1.0
        }
    });
}

#[test]
fn test_away_payoff_grid_zero_hdp() {
    check_ah(HomeAwaySide::Away, 0.0, |result: f64| {
        if result == 0.0 {
            0.0
        } else if result > 0.0 {
            -1.0
        } else {
            1.0
        }
    });
}

#[test]
fn test_away_payoff_grid_pos_half_hdp() {
    check_ah(HomeAwaySide::Away, 0.5, |result: f64| if result > 0.5 { -1.0 } else { 1.0 });
}

#[test]
fn test_away_payoff_grid_neg_half_hdp() {
    check_ah(HomeAwaySide::Away, -0.5, |result: f64| if result > -0.5 { -1.0 } else { 1.0 });
}

#[test]
fn test_away_payoff_grid_pos_quarter_hdp() {
    check_ah(HomeAwaySide::Away, 0.25, |result: f64| {
        if result == 0.0 {
            0.5
        } else if result > -0.5 {
            -1.0
        } else {
            1.0
        }
    });
}

#[test]
fn test_away_payoff_grid_neg_quarter_hdp() {
    check_ah(HomeAwaySide::Away, -0.25, |result: f64| {
        if result == 0.0 {
            -0.5
        } else if result > 0.0 {
            -1.0
        } else {
            1.0
        }
    });
}

#[test]
fn test_over_payoff() {
    check_ou(OverUnderSide::Over, 1.5, |result: f64| if result > 1.5 { 1.0 } else { -1.0 });
}

#[test]
fn test_under_payoff() {
    check_ou(OverUnderSide::Under, 1.5, |result: f64| if result < 1.5 { 1.0 } else { -1.0 });
}

#[test]
fn test_over_payoff_whole() {
    check_ou(OverUnderSide::Over, 2.0, |result: f64| {
        if result > 2.0 {
            1.0
        } else if result == 2.0 {
            0.0
        } else {
            -1.0
        }
    });
}

#[test]
fn test_under_payoff_whole() {
    check_ou(OverUnderSide::Under, 2.0, |result: f64| {
        if result < 1.5 {
            1.0
        } else if result == 2.0 {
            0.0
        } else {
            -1.0
        }
    });
}

#[test]
fn test_over_payoff_quarter() {
    check_ou(OverUnderSide::Over, 2.25, |result: f64| {
        if result > 2.5 {
            1.0
        } else if result == 2.0 {
            -0.5
        } else {
            -1.0
        }
    });
}

#[test]
fn test_under_payoff_quarter() {
    check_ou(OverUnderSide::Under, 2.25, |result: f64| {
        if result < 1.5 {
            1.0
        } else if result == 2.0 {
            0.5
        } else {
            -1.0
        }
    });
}

#[test]
fn test_over_payoff_quarter2() {
    check_ou(OverUnderSide::Over, 2.75, |result: f64| {
        if result == 3.0 {
            0.5
        } else if result > 2.5 {
            1.0
        } else {
            -1.0
        }
    });
}

#[test]
fn test_under_payoff_quarter2() {
    check_ou(OverUnderSide::Under, 2.75, |result: f64| {
        if result == 3.0 {
            -0.5
        } else if result < 2.5 {
            1.0
        } else {
            -1.0
        }
    });
}

#[test]
fn test_home_payoff() {
    check_wdw(HomeAwayDrawSide::Home, |result: f64| if result > 0.0 { 1.0 } else { -1.0 });
}

#[test]
fn test_away_payoff() {
    check_wdw(HomeAwayDrawSide::Away, |result: f64| if result < 0.0 { 1.0 } else { -1.0 });
}

#[test]
fn test_draw_payoff() {
    check_wdw(HomeAwayDrawSide::Draw, |result: f64| if result == 0.0 { 1.0 } else { -1.0 });
}
