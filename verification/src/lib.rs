pub mod board;
pub mod clear;
pub mod count;
pub mod game;
pub mod input;
pub mod laws;
pub mod rng;
pub mod shapes;
pub mod timing;
pub mod vanish;
pub mod well;
