//! Rules engine of a multiplayer poker server: deck, hand ranking, lobby
//! state and the per-variant round coordinators, with machine-checked
//! contracts.

pub mod budget;
pub mod cards;
pub mod database;
pub mod deal;
pub mod deck;
pub mod directory;
pub mod display;
pub mod games;
pub mod hand;
pub mod lobby;
pub mod owing;
pub mod player;
pub mod ready;
pub mod rounds;
pub mod session;
pub mod showdown;
