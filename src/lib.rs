//! Rules and turn interaction of a Santorini-style board game.
//!
//! `board` holds the board state and the rule engine over it; `controller`
//! holds the per-player interaction state machine and the session that
//! drives it one input event at a time.
pub mod board;
pub mod controller;
