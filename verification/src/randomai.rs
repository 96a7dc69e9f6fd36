//! A strategy that picks at random among the actions open to it, shots at
//! its own units included.
use crate::ai::AI;
use crate::game::Game;
use crate::rng::pick_one;
use crate::unit::Action;
use rand::XorShiftRng;
use vstd::prelude::*;

verus! {

/// The random strategy.
pub struct RandomAI {
    /// The random generator.
    rand: XorShiftRng,
}

impl RandomAI {
    /// Creates a random strategy. Every strategy so created draws the same
    /// numbers.
    pub fn new() -> Self {
        RandomAI { rand: XorShiftRng::new_unseeded() }
    }
}

impl AI for RandomAI {
    /// Picks one of the actions open to the player.
    fn play(&mut self, game: &Game, player: usize) -> (action: Action) {
        let moves = game.moves(player);
        *pick_one(&mut self.rand, moves.as_slice()).unwrap()
    }
}

} // verus!
