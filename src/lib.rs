//! Rules engine and alpha-beta adversary for Jungle chess (Dou Shou Qi).

pub mod ai;
pub mod board;
pub mod notation;
pub mod laws;
pub mod rules;
