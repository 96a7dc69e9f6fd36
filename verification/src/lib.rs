//! A turn-based grid battle between two sides, with strategies that choose
//! actions and an arena that plays matches between them.
pub mod ai;
pub mod comparator;
pub mod evaluator;
pub mod game;
pub mod maxima;
pub mod minmax;
pub mod montecarlo;
pub mod naive;
pub mod randomai;
pub mod rng;
mod seqs;
pub mod state;
pub mod unit;
