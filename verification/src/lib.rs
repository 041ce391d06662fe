//! Core of a local music player: builds a hierarchical library index from
//! ingested track metadata, persists and reloads it as a binary snapshot,
//! offers approximate-text search over stable coordinates into the index,
//! maintains a user-ordered playback queue with duration bookkeeping, and
//! defines the control protocol that drives an audio engine on its own thread.

pub mod record;
pub mod queue;
pub mod text;
pub mod library;
pub mod codec;
pub mod terms;
pub mod database;
pub mod state;
pub mod player;
