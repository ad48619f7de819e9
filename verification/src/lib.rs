//! Scenarios for neuro-evolution, and what runs and reports on them.
//!
//! A scenario scores a genome by what its network does: play a board game against earlier
//! champions, stack falling pieces, or run through a level. This crate holds everything that
//! is decided on the way: the rules by which a match goes on, what a network is shown and
//! how its reply is read, whom it plays against, when an evolution reports and stops, and
//! what a terminal shows. It leaves to its callers what needs the outside: stepping a
//! network, running a console, files, threads and the screen.
//!
//! Numbers that are not whole are handed over as IEEE 754 binary64 bit patterns (see
//! [`bits`]) or as quotients (see [`ratio`]).
pub mod bits;
pub mod cli;
pub mod config;
pub mod frame;
pub mod random;
pub mod ratio;
pub mod report;
pub mod runner;
pub mod scenarios;
pub mod share;
pub mod tetris;
pub mod text;
pub mod workspace;

pub use cli::cli_run;
pub use config::{CommonArgs, Config, EvolutionConfig};
pub use frame::{draw_output, render_frame};
pub use report::report_generation;
