//! Turns the flow records of the CIC datasets, as their CSV exports give
//! them, into unidirectional flows written as fixed-width lines of text and
//! sorted by label.
//!
//! A row of a dataset goes through these steps: it is checked and repaired
//! byte by byte (`cic::parser`), decoded and built into a record
//! (`cic::record`), for which its timestamp (`cic::time`, `cic::parser`) and
//! its counts (`cic::numeric`) are resolved with what earlier rows of the
//! file have shown; the record is split into its directions, the flows of a
//! batch are laid out and ordered, and sorted into groups by label
//! (`nf::flow`); each flow becomes a line, which can be read back
//! (`nf::io`). `convert` does all of this for the rows of one file.

pub mod cic;
pub mod convert;
pub mod decimal;
pub mod hints;
pub mod nf;
pub mod text;
