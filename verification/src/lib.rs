//! A verified predator-prey ecosystem on a toroidal plane.
//!
//! Predators pursue prey with boids-style steering (chase, separation,
//! alignment, cohesion), prey run away, a recursive quadrant index answers
//! the radius-bounded neighbor queries, and a genetic algorithm evolves
//! the predators' steering weights across generations.
//!
//! All geometry is exact fixed-point arithmetic: one plane unit is
//! `config::SCALE` coordinate steps, so every displacement, radius test
//! and normalization is an integer computation with a proved contract.
//! Randomness flows through one explicit seeded generator, so whole runs
//! replay deterministically.

pub mod config;
pub mod pvector;
pub mod seq_lemmas;
pub mod quad_tree;
pub mod rng;
pub mod animal;
pub mod steering;
pub mod cat;
pub mod rat;
pub mod world;
