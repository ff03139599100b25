//! A virtual pet simulator: a single pet with three bounded attributes
//! (hunger, happiness, energy), actions that move them under a clamping
//! rule, a derived mood, a stochastic background event, and a persistence
//! format that round-trips the pet's state exactly.

pub mod display;
pub mod event;
pub mod mood;
pub mod pet;
pub mod storage;
