//! What always holds.

pub mod battle;
pub mod canvas;
pub mod contact;
pub mod launches;
pub mod lobby;
pub mod numbers;
pub mod rooms;
pub mod running;
pub mod server;
pub mod service;
pub mod shapes;
pub mod soundness;
pub mod standing;
pub mod steps;
