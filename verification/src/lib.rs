//! Server-side persistence core of a multiplayer card-game application.
//!
//! The crate models the row store that the repositories operate on and
//! verifies the repository layer itself: CRUD operations for games, players,
//! chats, chat messages, claims and cards, and the diff-and-reconcile
//! protocol that keeps a game aggregate's nested collections in step with a
//! desired state, one independently committed statement at a time.

pub mod types;
pub mod errors;
pub mod store;
pub mod card_repository;
pub mod player_repository;
pub mod chat_message_repository;
pub mod chat_repository;
pub mod claim_repository;
pub mod game_repository;
pub mod laws;

use vstd::prelude::*;

verus! {

} // verus!
