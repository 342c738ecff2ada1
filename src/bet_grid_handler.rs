use vstd::prelude::*;
use crate::asian_handicap::{ah_payoff, AsianHandicap};
use crate::decimal::{count_value, line_text_units, parse_count, parse_line};
use crate::payoff::LINE_LIMIT;
use crate::grid::{Grid, GridError};
use crate::market_specifiers::{
    home_away_draw_of,
    home_away_of,
    over_under_of,
    text_eq,
    HomeAwayDrawSide,
    HomeAwaySide,
    OverUnderSide,
};
use crate::over_under::{ou_payoff, OverUnder};
use crate::win_draw_win::{wdw_payoff, WinDrawWin};

verus! {

/// The grid size used when none is given.
pub const DEFAULT_FB_GRID_SIZE: usize = 10;

/// The markets that a grid can be computed for.
#[derive(Debug, PartialEq, Eq, Structural, Clone, Copy)]
pub enum BetType {
    WinDrawWin,
    AsianHandicap,
    OverUnder,
}

/// How a result is to be rendered: as a structured document or as a table.
#[derive(Debug, PartialEq, Eq, Structural, Clone, Copy)]
pub enum OutputMode {
    Text,
    Json,
}

/// A named parameter of a request.
#[derive(Debug, PartialEq, Eq, Structural, Clone, Copy)]
pub enum Param {
    BetType,
    Side,
    Handicap,
    Goals,
    GridSize,
}

/// Why a request yields no grid.
#[derive(Debug, PartialEq, Eq, Structural, Clone, Copy)]
pub enum BetGridError {
    MissingRequiredParameter(Param),
    InvalidSideCode,
    InvalidNumericParameter(Param),
    UnsupportedBetType,
    OutOfBounds(GridError),
}

/// The named string parameters of a request, each absent or as given.
pub struct BetRequest {
    pub bet_type: Option<String>,
    pub output: Option<String>,
    pub grid_size: Option<String>,
    pub side: Option<String>,
    pub handicap: Option<String>,
    pub goals: Option<String>,
}

/// A fully specified bet: the market, the side and the line in line units.
pub enum Bet {
    WinDrawWin(HomeAwayDrawSide),
    AsianHandicap(HomeAwaySide, int),
    OverUnder(OverUnderSide, int),
}

/// The payoff, in half units, of `bet` when the match ends `home` to `away`.
pub open spec fn bet_payoff(bet: Bet, home: int, away: int) -> int {
    match bet {
        Bet::WinDrawWin(side) => wdw_payoff(side, home, away),
        Bet::AsianHandicap(side, line) => ah_payoff(side, line, home, away),
        Bet::OverUnder(side, line) => ou_payoff(side, line, home, away),
    }
}

/// The market that a tag names.
pub open spec fn bet_type_of(s: Seq<char>) -> Option<BetType> {
    if s == "win-draw-win"@ {
        Some(BetType::WinDrawWin)
    } else if s == "asian-handicap"@ {
        Some(BetType::AsianHandicap)
    } else if s == "over-under"@ {
        Some(BetType::OverUnder)
    } else {
        None
    }
}

/// The output mode that an output flag selects: structured for `json` or
/// `j`, a table otherwise.
pub open spec fn output_mode_of(output: Option<String>) -> OutputMode {
    match output {
        Some(o) => if o@ == "json"@ || o@ == "j"@ {
            OutputMode::Json
        } else {
            OutputMode::Text
        },
        None => OutputMode::Text,
    }
}

/// The grid size that a request asks for.
pub open spec fn grid_size_of(grid_size: Option<String>) -> Result<usize, BetGridError> {
    match grid_size {
        Some(s) => match count_value(s@) {
            Some(v) => if v <= usize::MAX {
                Ok(v as usize)
            } else {
                Err(BetGridError::InvalidNumericParameter(Param::GridSize))
            },
            None => Err(BetGridError::InvalidNumericParameter(Param::GridSize)),
        },
        None => Ok(DEFAULT_FB_GRID_SIZE),
    }
}

/// The market that a request asks for.
pub open spec fn requested_bet_type(bet_type: Option<String>) -> Result<BetType, BetGridError> {
    match bet_type {
        Some(s) => match bet_type_of(s@) {
            Some(t) => Ok(t),
            None => Err(BetGridError::UnsupportedBetType),
        },
        None => Err(BetGridError::MissingRequiredParameter(Param::BetType)),
    }
}

/// The line, in line units, given for the parameter `param`.
pub open spec fn requested_line(text: Option<String>, param: Param) -> Result<int, BetGridError> {
    match text {
        Some(s) => match line_text_units(s@) {
            Some(q) => if -LINE_LIMIT <= q <= LINE_LIMIT {
                Ok(q)
            } else {
                Err(BetGridError::InvalidNumericParameter(param))
            },
            None => Err(BetGridError::InvalidNumericParameter(param)),
        },
        None => Err(BetGridError::MissingRequiredParameter(param)),
    }
}

/// The bet that a request of market `t` describes, or the first fault of its
/// parameters: the side is checked before the line.
pub open spec fn requested_bet(req: BetRequest, t: BetType) -> Result<Bet, BetGridError> {
    match req.side {
        None => Err(BetGridError::MissingRequiredParameter(Param::Side)),
        Some(side) => match t {
            BetType::WinDrawWin => match home_away_draw_of(side@) {
                Some(s) => Ok(Bet::WinDrawWin(s)),
                None => Err(BetGridError::InvalidSideCode),
            },
            BetType::AsianHandicap => match home_away_of(side@) {
                Some(s) => match requested_line(req.handicap, Param::Handicap) {
                    Ok(q) => Ok(Bet::AsianHandicap(s, q)),
                    Err(e) => Err(e),
                },
                None => Err(BetGridError::InvalidSideCode),
            },
            BetType::OverUnder => match over_under_of(side@) {
                Some(s) => match requested_line(req.goals, Param::Goals) {
                    Ok(q) => Ok(Bet::OverUnder(s, q)),
                    Err(e) => Err(e),
                },
                None => Err(BetGridError::InvalidSideCode),
            },
        },
    }
}

/// What a request resolves to: its grid size and bet, or the first fault,
/// checking the grid size, then the market, then the market's parameters.
pub open spec fn resolve_request(req: BetRequest) -> Result<(usize, Bet), BetGridError> {
    match grid_size_of(req.grid_size) {
        Err(e) => Err(e),
        Ok(n) => match requested_bet_type(req.bet_type) {
            Err(e) => Err(e),
            Ok(t) => match requested_bet(req, t) {
                Err(e) => Err(e),
                Ok(bet) => Ok((n, bet)),
            },
        },
    }
}

/// `g` is the complete grid of size `n` for `bet`.
pub open spec fn is_payoff_grid_of(g: Grid, n: usize, bet: Bet) -> bool {
    &&& g.wf()
    &&& g.size() == n
    &&& forall|h: int, a: int|
        0 <= h < n && 0 <= a < n ==> #[trigger] g@[h][a] == bet_payoff(bet, h, a)
}

/// `r` is what a request that resolves to `resolved` must yield.
pub open spec fn answers(r: Result<Grid, BetGridError>, resolved: Result<(usize, Bet), BetGridError>) -> bool {
    match resolved {
        Ok((n, bet)) => r matches Ok(g) && is_payoff_grid_of(g, n, bet),
        Err(e) => r == Err::<Grid, BetGridError>(e),
    }
}

/// Computes payoff grids from requests.
pub struct BetGrid {}

impl BetGrid {
    pub fn new() -> (r: BetGrid) {
        BetGrid {  }
    }

    /// The output mode of `request`, and the grid it asks for or the first
    /// fault of its parameters.
    pub fn run(&self, request: &BetRequest) -> (r: (OutputMode, Result<Grid, BetGridError>))
        ensures
            r.0 == output_mode_of(request.output),
            answers(r.1, resolve_request(*request)),
    {
        let handler = BetGridCliHandler::new();
        let output_mode = handler.get_output_mode(&request.output);
        (output_mode, self.payoff_grid(request))
    }

    fn payoff_grid(&self, request: &BetRequest) -> (r: Result<Grid, BetGridError>)
        ensures
            answers(r, resolve_request(*request)),
    {
        let handler = BetGridCliHandler::new();
        handler.payoff_grid(request)
    }
}

/// Resolves a request's parameters and runs the calculator it selects.
pub struct BetGridCliHandler {}

impl BetGridCliHandler {
    pub fn new() -> (r: BetGridCliHandler) {
        BetGridCliHandler {  }
    }

    /// The grid that `request` asks for, or the first fault of its
    /// parameters; no calculator runs unless every parameter is sound.
    pub fn payoff_grid(&self, request: &BetRequest) -> (r: Result<Grid, BetGridError>)
        ensures
            answers(r, resolve_request(*request)),
    {
        let grid_size = self.get_grid_size(&request.grid_size)?;
        let bet_type = self.get_bet_type(&request.bet_type)?;
        let side = match &request.side {
            Some(s) => s.as_str(),
            None => {
                return Err(BetGridError::MissingRequiredParameter(Param::Side));
            },
        };
        match bet_type {
            BetType::WinDrawWin => {
                let side = match HomeAwayDrawSide::from_str(side) {
                    Ok(s) => s,
                    Err(_) => {
                        return Err(BetGridError::InvalidSideCode);
                    },
                };
                match WinDrawWin::get_payoff_grid(side, grid_size) {
                    Ok(g) => Ok(g),
                    Err(e) => Err(BetGridError::OutOfBounds(e)),
                }
            },
            BetType::AsianHandicap => {
                let side = match HomeAwaySide::from_str(side) {
                    Ok(s) => s,
                    Err(_) => {
                        return Err(BetGridError::InvalidSideCode);
                    },
                };
                let handicap = self.get_line(&request.handicap, Param::Handicap)?;
                match AsianHandicap::get_payoff_grid(side, handicap, grid_size) {
                    Ok(g) => Ok(g),
                    Err(e) => Err(BetGridError::OutOfBounds(e)),
                }
            },
            BetType::OverUnder => {
                let side = match OverUnderSide::from_str(side) {
                    Ok(s) => s,
                    Err(_) => {
                        return Err(BetGridError::InvalidSideCode);
                    },
                };
                let goals = self.get_line(&request.goals, Param::Goals)?;
                match OverUnder::get_payoff_grid(side, goals, grid_size) {
                    Ok(g) => Ok(g),
                    Err(e) => Err(BetGridError::OutOfBounds(e)),
                }
            },
        }
    }

    /// The output mode that the output flag selects.
    pub fn get_output_mode(&self, output: &Option<String>) -> (r: OutputMode)
        ensures
            r == output_mode_of(*output),
    {
        match output {
            Some(o) => if text_eq(o.as_str(), "json") || text_eq(o.as_str(), "j") {
                OutputMode::Json
            } else {
                OutputMode::Text
            },
            None => OutputMode::Text,
        }
    }

    /// The grid size asked for, or the default when none is given.
    pub fn get_grid_size(&self, grid_size: &Option<String>) -> (r: Result<usize, BetGridError>)
        ensures
            r == grid_size_of(*grid_size),
    {
        match grid_size {
            Some(s) => match parse_count(s.as_str()) {
                Some(n) => Ok(n),
                None => Err(BetGridError::InvalidNumericParameter(Param::GridSize)),
            },
            None => Ok(DEFAULT_FB_GRID_SIZE),
        }
    }

    /// The market that the tag names.
    pub fn get_bet_type(&self, bet_type: &Option<String>) -> (r: Result<BetType, BetGridError>)
        ensures
            r == requested_bet_type(*bet_type),
    {
        match bet_type {
            None => Err(BetGridError::MissingRequiredParameter(Param::BetType)),
            Some(t) => {
                let t = t.as_str();
                if text_eq(t, "win-draw-win") {
                    Ok(BetType::WinDrawWin)
                } else if text_eq(t, "asian-handicap") {
                    Ok(BetType::AsianHandicap)
                } else if text_eq(t, "over-under") {
                    Ok(BetType::OverUnder)
                } else {
                    Err(BetGridError::UnsupportedBetType)
                }
            },
        }
    }

    /// The line, in line units, given for `param`.
    pub fn get_line(&self, text: &Option<String>, param: Param) -> (r: Result<i128, BetGridError>)
        ensures
            match r {
                Ok(q) => requested_line(*text, param) == Ok::<int, BetGridError>(q as int) && -LINE_LIMIT
                    <= q <= LINE_LIMIT,
                Err(e) => requested_line(*text, param) == Err::<int, BetGridError>(e),
            },
    {
        match text {
            Some(s) => match parse_line(s.as_str()) {
                Some(q) => Ok(q),
                None => Err(BetGridError::InvalidNumericParameter(param)),
            },
            None => Err(BetGridError::MissingRequiredParameter(param)),
        }
    }
}

} // verus!
