//! Game logic for a Discord bot that runs Mafia games in Rocket League:
//! splitting a voice channel into two teams, secretly choosing the Mafia,
//! answering role requests, and running the vote after the match.
//!
//! Everything that talks to Discord lives outside this crate; the functions
//! here take and return plain values (user and message ids, emoji text) and
//! say in their contracts exactly what they decide.

pub mod random;
pub mod game;
pub mod emoji;
pub mod voting;
pub mod game_message;
pub mod event_handler;
