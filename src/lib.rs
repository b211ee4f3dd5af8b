//! Persistent per-user game state and a small closed item economy.

pub mod account;
pub mod codec;
pub mod item;
pub mod leaderboard;
pub mod profile;
pub mod shop;
pub mod store;
pub mod text;
