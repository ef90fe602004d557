//! Rules engine, computer player and room bookkeeping for the Sixty-Six card game.
pub mod cards;
pub mod deal;
pub mod rng;
pub mod game;
pub mod laws;
pub mod bot;
pub mod text;
pub mod room;
pub mod web;
