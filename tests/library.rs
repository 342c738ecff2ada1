use payoff_grid::asian_handicap::AsianHandicap;
use payoff_grid::bet_grid_handler::{
    BetGrid, BetGridCliHandler, BetGridError, BetRequest, OutputMode, Param, DEFAULT_FB_GRID_SIZE,
};
use payoff_grid::decimal::{parse_count, parse_line};
use payoff_grid::grid::{away_label_start, home_label, payoff_text_length, Grid, GridError};
use payoff_grid::market_specifiers::{text_eq, HomeAwayDrawSide, HomeAwaySide, OverUnderSide};
use payoff_grid::over_under::OverUnder;
use payoff_grid::payoff::{handicap_payoff_sign, split_payoff, LINE_LIMIT, LINE_SCALE, QUARTER_GOAL};

const Q: i128 = QUARTER_GOAL;
use payoff_grid::win_draw_win::WinDrawWin;

fn request(bet_type: Option<&str>, side: Option<&str>) -> BetRequest {
    BetRequest {
        bet_type: bet_type.map(|s| s.to_string()),
        output: None,
        grid_size: None,
        side: side.map(|s| s.to_string()),
        handicap: None,
        goals: None,
    }
}

#[test]
fn three_way_payoffs_are_one_win_two_losses() {
    for n in 1..6usize {
        let home = WinDrawWin::get_payoff_grid(HomeAwayDrawSide::Home, n).unwrap();
        let away = WinDrawWin::get_payoff_grid(HomeAwayDrawSide::Away, n).unwrap();
        let draw = WinDrawWin::get_payoff_grid(HomeAwayDrawSide::Draw, n).unwrap();
        for h in 0..n {
            for a in 0..n {
                let mut cells = vec![home.payoff(h, a), away.payoff(h, a), draw.payoff(h, a)];
                assert_eq!(cells.iter().sum::<i32>(), -2);
                cells.sort();
                assert_eq!(cells, vec![-2, -2, 2]);
            }
        }
    }
}

#[test]
fn switched_side_and_negated_line_pays_opposite() {
    for k in -9..10i128 {
        let q = k * Q;
        let home = AsianHandicap::get_payoff_grid(HomeAwaySide::Home, q, 6).unwrap();
        let away = AsianHandicap::get_payoff_grid(HomeAwaySide::Away, -q, 6).unwrap();
        let mirrored = AsianHandicap::get_payoff_grid(HomeAwaySide::Away, q, 6).unwrap();
        for h in 0..6 {
            for a in 0..6 {
                assert_eq!(home.payoff(h, a), -away.payoff(h, a));
                assert_eq!(home.payoff(h, a), mirrored.payoff(a, h));
            }
        }
    }
    // a whole line at the push: the two agree
    let home = AsianHandicap::get_payoff_grid(HomeAwaySide::Home, -4 * Q, 3).unwrap();
    let away = AsianHandicap::get_payoff_grid(HomeAwaySide::Away, 4 * Q, 3).unwrap();
    assert_eq!(home.payoff(1, 0), 0);
    assert_eq!(away.payoff(1, 0), 0);
}

#[test]
fn quarter_handicap_is_mean_of_half_lines() {
    let g = AsianHandicap::get_payoff_grid(HomeAwaySide::Home, Q, 3).unwrap();
    assert_eq!(g.payoff(0, 0), 1); // differential 0: +0.5
    assert_eq!(g.payoff(0, 1), -2); // differential -1: -1
    assert_eq!(g.payoff(1, 0), 2); // differential +1: +1
    for k in [-7i128, -3, -1, 1, 3, 5] {
        let q = k * Q;
        let quarter = AsianHandicap::get_payoff_grid(HomeAwaySide::Away, q, 5).unwrap();
        let lower = AsianHandicap::get_payoff_grid(HomeAwaySide::Away, q - Q, 5).unwrap();
        let upper = AsianHandicap::get_payoff_grid(HomeAwaySide::Away, q + Q, 5).unwrap();
        for h in 0..5 {
            for a in 0..5 {
                assert_eq!(2 * quarter.payoff(h, a), lower.payoff(h, a) + upper.payoff(h, a));
            }
        }
    }
}

#[test]
fn quarter_goal_line_is_mean_of_half_lines() {
    let g = OverUnder::get_payoff_grid(OverUnderSide::Over, 9 * Q, 3).unwrap();
    assert_eq!(g.payoff(1, 1), -1); // total 2 against 2.25: -0.5
    for k in [-1i128, 1, 5, 9, 11] {
        let q = k * Q;
        let quarter = OverUnder::get_payoff_grid(OverUnderSide::Under, q, 5).unwrap();
        let lower = OverUnder::get_payoff_grid(OverUnderSide::Under, q - Q, 5).unwrap();
        let upper = OverUnder::get_payoff_grid(OverUnderSide::Under, q + Q, 5).unwrap();
        for h in 0..5 {
            for a in 0..5 {
                assert_eq!(2 * quarter.payoff(h, a), lower.payoff(h, a) + upper.payoff(h, a));
            }
        }
    }
}

#[test]
fn structured_view_round_trip() {
    let mut g = Grid::new(3);
    let values = [-2, -1, 0, 1, 2, 2, 1, 0, -1];
    for h in 0..3 {
        for a in 0..3 {
            g.set_payoff(h, a, values[3 * h + a]).unwrap();
        }
    }
    let view = g.structured_view();
    assert_eq!(view.grid_size, 3);
    assert_eq!(view.payoff_grid.len(), 3);
    for h in 0..3 {
        assert_eq!(view.payoff_grid[&h].len(), 3);
        for a in 0..3 {
            assert_eq!(view.payoff(h, a), Some(values[3 * h + a]));
            assert_eq!(g.payoff(h, a), values[3 * h + a]);
        }
    }
    assert_eq!(view.payoff(3, 0), None);
    assert_eq!(view.payoff(0, 3), None);
}

#[test]
fn set_payoff_boundary() {
    let mut g = Grid::new(4);
    assert_eq!(
        g.set_payoff(4, 0, 2),
        Err(GridError::OutOfBounds { home: 4, away: 0, grid_size: 4 })
    );
    assert_eq!(
        g.set_payoff(0, 4, 2),
        Err(GridError::OutOfBounds { home: 0, away: 4, grid_size: 4 })
    );
    assert_eq!(g.set_payoff(3, 3, 2), Ok(()));
    assert_eq!(g.payoff(3, 3), 2);
    assert_eq!(g.payoff(3, 2), 0);
}

#[test]
fn empty_grid() {
    let mut g = Grid::new(0);
    assert_eq!(g.grid_size(), 0);
    assert!(g.structured_view().payoff_grid.is_empty());
    assert!(g.get_column_lengths().is_empty());
    assert!(g.set_payoff(0, 0, 2).is_err());
}

#[test]
fn end_to_end_scenarios() {
    let wdw = WinDrawWin::get_payoff_grid(HomeAwayDrawSide::Draw, 3).unwrap();
    assert_eq!(wdw.payoff(1, 1), 2);
    assert_eq!(wdw.payoff(0, 1), -2);
    assert_eq!(wdw.payoff(1, 0), -2);
    let ah = AsianHandicap::get_payoff_grid(HomeAwaySide::Home, -Q, 3).unwrap();
    assert_eq!(ah.payoff(1, 1), -1);
    let ou = OverUnder::get_payoff_grid(OverUnderSide::Under, 6 * Q, 2).unwrap();
    assert_eq!(ou.payoff(0, 0), 2);
}

#[test]
fn side_codes() {
    assert_eq!(HomeAwayDrawSide::from_str("home"), Ok(HomeAwayDrawSide::Home));
    assert_eq!(HomeAwayDrawSide::from_str("a"), Ok(HomeAwayDrawSide::Away));
    assert_eq!(HomeAwayDrawSide::from_str("d"), Ok(HomeAwayDrawSide::Draw));
    assert_eq!(HomeAwayDrawSide::from_str("Draw"), Err(()));
    assert_eq!(HomeAwaySide::from_str("h"), Ok(HomeAwaySide::Home));
    assert_eq!(HomeAwaySide::from_str("away"), Ok(HomeAwaySide::Away));
    assert_eq!(HomeAwaySide::from_str("draw"), Err(()));
    assert_eq!(OverUnderSide::from_str("over"), Ok(OverUnderSide::Over));
    assert_eq!(OverUnderSide::from_str("u"), Ok(OverUnderSide::Under));
    assert_eq!(OverUnderSide::from_str(""), Err(()));
    assert_eq!(HomeAwayDrawSide::Draw.name(), "Draw");
    assert_eq!(HomeAwaySide::Away.name(), "Away");
    assert_eq!(OverUnderSide::Under.name(), "Under");
    assert!(text_eq("abc", "abc"));
    assert!(!text_eq("abc", "abd"));
}

#[test]
fn decimal_lines() {
    assert_eq!(parse_line("-0.25"), Some(-Q));
    assert_eq!(parse_line("1.5"), Some(6 * Q));
    assert_eq!(parse_line("+2.75"), Some(11 * Q));
    assert_eq!(parse_line("3"), Some(3 * LINE_SCALE));
    assert_eq!(parse_line(".5"), Some(2 * Q));
    assert_eq!(parse_line("2."), Some(2 * LINE_SCALE));
    assert_eq!(parse_line("0.500"), Some(2 * Q));
    assert_eq!(parse_line("-0"), Some(0));
    assert_eq!(parse_line("0.1"), Some(LINE_SCALE / 10));
    assert_eq!(parse_line("-1.1"), Some(-(LINE_SCALE + LINE_SCALE / 10)));
    assert_eq!(parse_line("0.000000000000000001"), Some(1));
    assert_eq!(parse_line("0.1000000000000000000000"), Some(LINE_SCALE / 10));
    assert_eq!(parse_line("0.0000000000000000001"), None);
    assert_eq!(parse_line("10000000000000000000"), Some(LINE_LIMIT));
    assert_eq!(parse_line("-10000000000000000000"), Some(-LINE_LIMIT));
    assert_eq!(parse_line("10000000000000000000.5"), None);
    assert_eq!(parse_line("99999999999999999999"), None);
    assert_eq!(parse_line("."), None);
    assert_eq!(parse_line(""), None);
    assert_eq!(parse_line("-"), None);
    assert_eq!(parse_line("1.2.5"), None);
    assert_eq!(parse_line("abc"), None);
    assert_eq!(parse_line("inf"), None);
    assert_eq!(parse_line("NaN"), None);
}

#[test]
fn exponent_lines() {
    assert_eq!(parse_line("1e1"), Some(10 * LINE_SCALE));
    assert_eq!(parse_line("2.5E-1"), Some(Q));
    assert_eq!(parse_line("-25e-2"), Some(-Q));
    assert_eq!(parse_line("1e-18"), Some(1));
    assert_eq!(parse_line("1e-19"), None);
    assert_eq!(parse_line("0e999999999999999999999"), Some(0));
    assert_eq!(parse_line("1e19"), Some(LINE_LIMIT));
    assert_eq!(parse_line("1e20"), None);
    assert_eq!(parse_line("1e+0"), Some(LINE_SCALE));
    assert_eq!(parse_line("1e"), None);
    assert_eq!(parse_line("e5"), None);
    assert_eq!(parse_line("1e1e1"), None);
    let mut req = request(Some("over-under"), Some("over"));
    req.goals = Some("2.5e0".to_string());
    let g = BetGridCliHandler::new().payoff_grid(&req).unwrap();
    assert_eq!(g.payoff(1, 1), -2);
    assert_eq!(g.payoff(2, 1), 2);
}

#[test]
fn lines_between_quarters() {
    // handicap 0.1: legs at -0.15 and +0.35
    let g = AsianHandicap::get_payoff_grid(HomeAwaySide::Home, LINE_SCALE / 10, 3).unwrap();
    assert_eq!(g.payoff(0, 0), 0);
    assert_eq!(g.payoff(1, 0), 2);
    assert_eq!(g.payoff(0, 1), -2);
    // handicap -1.1 for the away side: legs at -1.35 and -0.85
    let g = AsianHandicap::get_payoff_grid(HomeAwaySide::Away, -(LINE_SCALE + LINE_SCALE / 10), 3).unwrap();
    assert_eq!(g.payoff(0, 1), 0);
    assert_eq!(g.payoff(0, 2), 2);
    assert_eq!(g.payoff(0, 0), -2);
    // goal line 2.1: legs at 1.85 and 2.35
    let g = OverUnder::get_payoff_grid(OverUnderSide::Over, 2 * LINE_SCALE + LINE_SCALE / 10, 3).unwrap();
    assert_eq!(g.payoff(1, 1), 0);
    assert_eq!(g.payoff(2, 1), 2);
    assert_eq!(g.payoff(1, 0), -2);
    // a whole line settles once: pushes on the line
    let g = OverUnder::get_payoff_grid(OverUnderSide::Under, 2 * LINE_SCALE, 3).unwrap();
    assert_eq!(g.payoff(1, 1), 0);
    // through the dispatcher
    let mut req = request(Some("asian-handicap"), Some("home"));
    req.handicap = Some("0.1".to_string());
    req.grid_size = Some("3".to_string());
    let g = BetGridCliHandler::new().payoff_grid(&req).unwrap();
    assert_eq!(g.payoff(0, 0), 0);
    assert_eq!(g.payoff(2, 1), 2);
}

#[test]
fn decimal_counts() {
    assert_eq!(parse_count("10"), Some(10));
    assert_eq!(parse_count("+7"), Some(7));
    assert_eq!(parse_count("0"), Some(0));
    assert_eq!(parse_count(""), None);
    assert_eq!(parse_count("-1"), None);
    assert_eq!(parse_count("3.0"), None);
    assert_eq!(parse_count("99999999999999999999999"), None);
}

#[test]
fn shared_comparator() {
    assert_eq!(handicap_payoff_sign(5), 2);
    assert_eq!(handicap_payoff_sign(0), 0);
    assert_eq!(handicap_payoff_sign(-1), -2);
    assert_eq!(split_payoff(2, 0), 1);
    assert_eq!(split_payoff(-2, 0), -1);
    assert_eq!(split_payoff(-2, 2), 0);
}

#[test]
fn column_widths() {
    assert_eq!(payoff_text_length(2), 1); // "1"
    assert_eq!(payoff_text_length(-2), 2); // "-1"
    assert_eq!(payoff_text_length(1), 3); // "0.5"
    assert_eq!(payoff_text_length(-1), 4); // "-0.5"
    assert_eq!(payoff_text_length(0), 1); // "0"
    assert_eq!(payoff_text_length(-21), 5); // "-10.5"
    let g = AsianHandicap::get_payoff_grid(HomeAwaySide::Home, Q, 3).unwrap();
    let widths = g.get_column_lengths();
    // column 0: 0.5, 1, 1; column 1: -1, 0.5, 1; column 2: -1, -1, 0.5
    assert_eq!(widths[&0], 3);
    assert_eq!(widths[&1], 3);
    assert_eq!(widths[&2], 3);
    let w = WinDrawWin::get_payoff_grid(HomeAwayDrawSide::Home, 2).unwrap();
    let widths = w.get_column_lengths();
    assert_eq!(widths[&0], 2);
    assert_eq!(w.get_col_length(&widths, 1), 2);
    assert_eq!(w.get_col_length(&widths, 7), 3);
}

#[test]
fn dispatch_success() {
    let mut req = request(Some("asian-handicap"), Some("home"));
    req.handicap = Some("-0.25".to_string());
    req.grid_size = Some("3".to_string());
    req.output = Some("j".to_string());
    let (mode, result) = BetGrid::new().run(&req);
    assert_eq!(mode, OutputMode::Json);
    let g = result.unwrap();
    assert_eq!(g.grid_size(), 3);
    assert_eq!(g.payoff(1, 1), -1);

    let mut req = request(Some("over-under"), Some("u"));
    req.goals = Some("1.5".to_string());
    let (mode, result) = BetGrid::new().run(&req);
    assert_eq!(mode, OutputMode::Text);
    let g = result.unwrap();
    assert_eq!(g.grid_size(), DEFAULT_FB_GRID_SIZE);
    assert_eq!(g.payoff(0, 0), 2);
    assert_eq!(g.payoff(1, 1), -2);

    let g = BetGridCliHandler::new().payoff_grid(&request(Some("win-draw-win"), Some("d"))).unwrap();
    assert_eq!(g.payoff(2, 2), 2);
    assert_eq!(g.payoff(2, 1), -2);
}

#[test]
fn dispatch_errors() {
    let handler = BetGridCliHandler::new();
    let err = |req: &BetRequest| handler.payoff_grid(req).err().unwrap();
    assert_eq!(
        err(&request(None, Some("home"))),
        BetGridError::MissingRequiredParameter(Param::BetType)
    );
    assert_eq!(err(&request(Some("correct-score"), Some("home"))), BetGridError::UnsupportedBetType);
    assert_eq!(
        err(&request(Some("win-draw-win"), None)),
        BetGridError::MissingRequiredParameter(Param::Side)
    );
    assert_eq!(err(&request(Some("win-draw-win"), Some("over"))), BetGridError::InvalidSideCode);
    assert_eq!(
        err(&request(Some("asian-handicap"), Some("home"))),
        BetGridError::MissingRequiredParameter(Param::Handicap)
    );
    let mut req = request(Some("over-under"), Some("over"));
    req.goals = Some("two".to_string());
    assert_eq!(err(&req), BetGridError::InvalidNumericParameter(Param::Goals));
    let mut req = request(Some("win-draw-win"), Some("home"));
    req.grid_size = Some("ten".to_string());
    assert_eq!(err(&req), BetGridError::InvalidNumericParameter(Param::GridSize));
    assert_eq!(handler.get_output_mode(&Some("json".to_string())), OutputMode::Json);
    assert_eq!(handler.get_output_mode(&Some("text".to_string())), OutputMode::Text);
}

#[test]
fn table_layout() {
    let g = WinDrawWin::get_payoff_grid(HomeAwayDrawSide::Home, 2).unwrap();
    let widths = g.get_column_lengths();
    // 7 + (2 + 3) + (2 + 3)
    assert_eq!(g.get_line_length(&widths), 17);
    assert_eq!(away_label_start(17), 6);
    // 10 rows: 16 lines, label on lines 6..10, i.e. home goals 3..7
    assert_eq!(home_label(2, 10), None);
    assert_eq!(home_label(3, 10), Some('H'));
    assert_eq!(home_label(4, 10), Some('O'));
    assert_eq!(home_label(5, 10), Some('M'));
    assert_eq!(home_label(6, 10), Some('E'));
    assert_eq!(home_label(7, 10), None);
    // 2 rows: 8 lines, label on lines 2..6, i.e. home goals 0 and 1 carry 'O' and 'M'
    assert_eq!(home_label(0, 2), Some('O'));
    assert_eq!(home_label(1, 2), Some('M'));
}
