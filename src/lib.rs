pub mod engine;
pub mod card;
pub mod creature;
pub mod field;
pub mod game;
pub mod config;
pub mod views;
pub mod loader;
