//! Synchronisation engine for shared text rooms.
//!
//! Clients join a named room and see each other's edits of one text. A room
//! keeps the latest snapshot of its text under a version counter that wraps,
//! and broadcasts each new snapshot through a hub that holds one unread
//! snapshot at most. A session forwards a snapshot to its client as a patch,
//! and only if the snapshot is strictly newer than what the client shows, so
//! that late, repeated or skipped deliveries never move a client back. A
//! sweeper evicts rooms that are empty and idle.
//!
//! - [`text`]: the size cap of the text and how longer text is clamped.
//! - [`status`]: snapshots, their wrapping order, and patches.
//! - [`room`]: rooms and the registry of rooms.
//! - [`handler`]: sessions.
//! - [`daemon`]: the sweeper.
//! - [`deps`]: what is assumed of the code that the library calls.
//!
//! The library takes no lock and waits for nothing: its owner does, and
//! hands it what it needs.
pub mod daemon;
pub mod deps;
pub mod handler;
pub mod room;
pub mod status;
pub mod text;
