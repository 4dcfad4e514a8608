//! Rule engine for Suipi, a fishing-style card game.
//!
//! The crate models cards and piles, the build / group / pair algebra on
//! piles, the interpretation of a move as one legal turn on the game state,
//! and the round and game cycle around it.
//!
//! Every executable function is verified against a contract over the views
//! of the data: a pile as its cards, value, marker and owner, a state as its
//! deck, floor and players, a game as its counters, generator, state, scores
//! and history. What every move and every deal keeps (the 52 cards, unique
//! values on the floor, one stack for each player at most) is proved in
//! `invariants`, `ownership` and `game`.

pub mod action;
pub mod api;
pub mod card;
pub mod game;
pub mod invariants;
pub mod ownership;
pub mod pile;
pub mod render;
pub mod rng;
pub mod score;
pub mod sets;
pub mod state;
