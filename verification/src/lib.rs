//! An ant colony system for the shortest open path through a set of cities.
//!
//! The library decides and keeps the books: which cities an ant may still
//! enter, which of them it enters, which ways get a new pheromone level and
//! when, which tour is the best one. It never computes with real numbers. A
//! number is held in its IEEE-754 binary64 encoding, which is enough to
//! classify it and to order it against another; the arithmetic of the rules
//! is the caller's, who gets the operands from the library and hands the
//! results back.

pub mod cost;
pub mod error;
pub mod generation;
pub mod laws;
pub mod matrix;
pub mod pheromone;
pub mod scalar;
pub mod state;
pub mod system;
pub mod tour;
