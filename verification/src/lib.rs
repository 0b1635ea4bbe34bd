//! The rules of a room-based balloon game, verified.

pub mod collision;
pub mod directory;
pub mod emitters;
pub mod ids;
pub mod laws;
pub mod lobby;
pub mod measure;
pub mod messages;
pub mod seqs;
pub mod server;
pub mod session;
pub mod single;
pub mod state;
pub mod update;
