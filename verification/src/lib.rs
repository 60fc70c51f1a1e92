//! Stochastic battles between a coordinated group and a solitary fighter.
//!
//! The crate models the agents of one battle, the rules by which an agent
//! picks a target, moves and strikes, the schedule of a round, and the loop
//! that runs rounds until the battle is decided. Every rule is stated as a
//! contract over mathematical models of the data and proved.
//!
//! What is drawn at random comes from a generator that each battle owns. The
//! contracts of the functions that draw say what holds whatever is drawn;
//! the functions that work on what was drawn say exactly what they return.

pub mod agents;
pub mod analysis;
pub mod arena;
pub mod causal;
pub mod character_profiles;
pub mod combat;
pub mod combatants;
pub mod dice;
pub mod engine;
pub mod environment;
pub mod laws;
pub mod models;
pub mod roster;
pub mod round;
pub mod simulation;
pub mod turn;
