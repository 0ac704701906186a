//! The records of the CIC datasets and how they are read.

pub mod dataset_name;
pub mod flag_count;
pub mod io;
pub mod label;
pub mod numeric;
pub mod parser;
pub mod record;
pub mod time;
