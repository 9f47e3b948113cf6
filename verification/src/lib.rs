pub mod board;
pub mod game;
pub mod store;
