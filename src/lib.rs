//! Iterated Prisoner's Dilemma tournaments between a fixed panel of
//! strategies and a population of genome-encoded strategies, with the
//! genetic operators that breed the next population.

mod chance;
pub mod decision;
pub mod evolution;
pub mod genome;
pub mod panel;
pub mod reward;
mod score_grid;
pub mod standing;
pub mod strategy;
pub mod tournament;

pub use decision::Decision;
pub use evolution::{breed, get_new_generation, mutate, next_generation, reproduce};
pub use genome::{genome_to_number, number_to_genome, Genome};
pub use strategy::{
    evil, good_tit_for_tat, naive, nand, opposite_tit_for_tat, random, random_biased,
    sus_tit_for_tat, xnor, xor, Strategy,
};
pub use reward::{prisoners_dillemma_rules, RewardTable};
pub use standing::{GENERATION_SIZE, NUM_PLAYERS, POPULATION_SIZE};
pub use tournament::{Player, Tournament};
