//! A two-player grid combat game engine: ships, boards, shot resolution,
//! turn alternation and win detection, with their contracts proved.
pub mod ship;
pub mod board;
pub mod game;
pub mod opponent;
