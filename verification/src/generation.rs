//! What a generated planet is made of.

pub mod world;
