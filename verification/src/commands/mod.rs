//! The decisions of the `check`, `run`, `seed` and `stress` commands.

pub mod check;
pub mod run;
pub mod seed;
pub mod stress;
