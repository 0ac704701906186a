//! Unidirectional flows and their lines of text.

pub mod flags;
pub mod flow;
pub mod io;
pub mod round_trip;
