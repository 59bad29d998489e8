//! What single calls answer and change, in terms of what they are given.

pub mod additions;
pub mod chunks;
pub mod downloads;
