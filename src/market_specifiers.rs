use vstd::prelude::*;
use vstd::string::StrSliceExecFns;

verus! {

/// True when `s` and `lit` hold the same characters.
pub fn text_eq(s: &str, lit: &str) -> (r: bool)
    ensures
        r == (s@ == lit@),
{
    let n = s.unicode_len();
    let m = lit.unicode_len();
    if n != m {
        return false;
    }
    let mut i: usize = 0;
    while i < n
        invariant
            n == s@.len(),
            m == lit@.len(),
            n == m,
            i <= n,
            forall|j: int| 0 <= j < i ==> s@[j] == lit@[j],
        decreases n - i,
    {
        if s.get_char(i) != lit.get_char(i) {
            return false;
        }
        i = i + 1;
    }
    assert(s@ =~= lit@);
    true
}

/// The side of a three-way (win/draw/win) market.
#[derive(Debug, PartialEq, Eq, Structural, Clone, Copy)]
pub enum HomeAwayDrawSide {
    Home,
    Away,
    Draw,
}

/// The side of a two-way (Asian handicap) market.
#[derive(Debug, PartialEq, Eq, Structural, Clone, Copy)]
pub enum HomeAwaySide {
    Home,
    Away,
}

/// The side of a total-goals (over/under) market.
#[derive(Debug, PartialEq, Eq, Structural, Clone, Copy)]
pub enum OverUnderSide {
    Over,
    Under,
}

/// The three-way side that a short code names: the full word or its first letter.
pub open spec fn home_away_draw_of(s: Seq<char>) -> Option<HomeAwayDrawSide> {
    if s == "home"@ || s == "h"@ {
        Some(HomeAwayDrawSide::Home)
    } else if s == "away"@ || s == "a"@ {
        Some(HomeAwayDrawSide::Away)
    } else if s == "draw"@ || s == "d"@ {
        Some(HomeAwayDrawSide::Draw)
    } else {
        None
    }
}

/// The two-way side that a short code names.
pub open spec fn home_away_of(s: Seq<char>) -> Option<HomeAwaySide> {
    if s == "home"@ || s == "h"@ {
        Some(HomeAwaySide::Home)
    } else if s == "away"@ || s == "a"@ {
        Some(HomeAwaySide::Away)
    } else {
        None
    }
}

/// The total-goals side that a short code names.
pub open spec fn over_under_of(s: Seq<char>) -> Option<OverUnderSide> {
    if s == "over"@ || s == "o"@ {
        Some(OverUnderSide::Over)
    } else if s == "under"@ || s == "u"@ {
        Some(OverUnderSide::Under)
    } else {
        None
    }
}

impl HomeAwayDrawSide {
    /// Parses a case-sensitive side code; any other text is refused.
    pub fn from_str(input: &str) -> (r: Result<HomeAwayDrawSide, ()>)
        ensures
            r == (match home_away_draw_of(input@) {
                Some(side) => Ok(side),
                None => Err(()),
            }),
    {
        if text_eq(input, "home") || text_eq(input, "h") {
            Ok(HomeAwayDrawSide::Home)
        } else if text_eq(input, "away") || text_eq(input, "a") {
            Ok(HomeAwayDrawSide::Away)
        } else if text_eq(input, "draw") || text_eq(input, "d") {
            Ok(HomeAwayDrawSide::Draw)
        } else {
            Err(())
        }
    }

    /// The side's display name.
    pub fn name(&self) -> (r: &'static str)
        ensures
            r@ == (match self {
                HomeAwayDrawSide::Home => "Home"@,
                HomeAwayDrawSide::Away => "Away"@,
                HomeAwayDrawSide::Draw => "Draw"@,
            }),
    {
        match self {
            HomeAwayDrawSide::Home => "Home",
            HomeAwayDrawSide::Away => "Away",
            HomeAwayDrawSide::Draw => "Draw",
        }
    }
}

impl HomeAwaySide {
    /// Parses a case-sensitive side code; any other text is refused.
    pub fn from_str(input: &str) -> (r: Result<HomeAwaySide, ()>)
        ensures
            r == (match home_away_of(input@) {
                Some(side) => Ok(side),
                None => Err(()),
            }),
    {
        if text_eq(input, "home") || text_eq(input, "h") {
            Ok(HomeAwaySide::Home)
        } else if text_eq(input, "away") || text_eq(input, "a") {
            Ok(HomeAwaySide::Away)
        } else {
            Err(())
        }
    }

    /// The side's display name.
    pub fn name(&self) -> (r: &'static str)
        ensures
            r@ == (match self {
                HomeAwaySide::Home => "Home"@,
                HomeAwaySide::Away => "Away"@,
            }),
    {
        match self {
            HomeAwaySide::Home => "Home",
            HomeAwaySide::Away => "Away",
        }
    }
}

impl OverUnderSide {
    /// Parses a case-sensitive side code; any other text is refused.
    pub fn from_str(input: &str) -> (r: Result<OverUnderSide, ()>)
        ensures
            r == (match over_under_of(input@) {
                Some(side) => Ok(side),
                None => Err(()),
            }),
    {
        if text_eq(input, "over") || text_eq(input, "o") {
            Ok(OverUnderSide::Over)
        } else if text_eq(input, "under") || text_eq(input, "u") {
            Ok(OverUnderSide::Under)
        } else {
            Err(())
        }
    }

    /// The side's display name.
    pub fn name(&self) -> (r: &'static str)
        ensures
            r@ == (match self {
                OverUnderSide::Over => "Over"@,
                OverUnderSide::Under => "Under"@,
            }),
    {
        match self {
            OverUnderSide::Over => "Over",
            OverUnderSide::Under => "Under",
        }
    }
}

} // verus!
