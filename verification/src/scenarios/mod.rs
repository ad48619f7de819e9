//! What genomes are evaluated on.
pub mod board_games;
pub mod c;
pub mod console;
pub mod mario;
pub mod nes;
