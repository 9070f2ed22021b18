//! A multi-snake simulation engine on a fixed grid, with its per-tick
//! resolution rules and the bounded reachability analysis used to score moves.

pub mod board;
pub mod collisions;
pub mod game;
pub mod geometry;
pub mod heuristic_bot;
pub mod interactive_bot;
pub mod outcome;
pub mod random_bot;
pub mod reach;
pub mod rng;
pub mod rules;
pub mod search;
pub mod snake;
pub mod soundness;
