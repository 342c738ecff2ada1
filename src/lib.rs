//! Payoff matrices for football betting markets (win/draw/win, Asian
//! handicap, over/under), indexed by home goals and away goals.
//!
//! Payoffs are held in half units (a stake won is `2`, half won `1`, a push
//! `0`), and handicap and goal lines exactly, in units of 10^-18 goals, so
//! every value in the library is an exact integer.
pub mod asian_handicap;
pub mod bet_grid_handler;
pub mod decimal;
pub mod grid;
pub mod market_specifiers;
pub mod over_under;
pub mod payoff;
pub mod win_draw_win;
