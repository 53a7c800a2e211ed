//! Split-flap text animation: each column of a line steps forward through a
//! fixed drum of characters until it shows its target character.

pub mod alphabet;
pub mod animator;
