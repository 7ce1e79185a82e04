//! A falling-block game: seven pieces, a ten-column board, a seven-bag
//! randomizer, line-clear scoring, a clear flash, and the picture of it all.
pub mod bag;
pub mod bag_laws;
pub mod board;
pub mod counts;
pub mod game;
pub mod game_steps;
pub mod layout;
pub mod model;
pub mod picture_laws;
pub mod picture_rules;
pub mod piece;
pub mod play_laws;
pub mod rules;
pub mod scene;
pub mod validity;

pub use game::TetrisGame;
