//! Logical engine of a match-3 puzzle board: a grid of typed gems with
//! match detection, gravity, refilling, swap validation and hint generation.
//!
//! [`board::Board`] is the board; [`model::BoardView`] is the board as a mathematical
//! value, in whose terms every operation is specified; [`laws`] relates the
//! operations to each other. The hash collections that the board is kept in are
//! trusted, not proved: see [`collections`].
//!
//! The [`url`] module is independent of the board: it turns URLs into base64 text and
//! into digests.

pub mod board;
pub mod cascade;
pub mod collections;
pub mod config;
pub mod detection;
pub mod gravity;
pub mod hints;
pub mod laws;
pub mod matches;
pub mod model;
pub mod moves;
pub mod position;
pub mod refill;
pub mod runs;
pub mod swap;
pub mod url;
