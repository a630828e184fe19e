//! The torrents: what is started, paused and shown.
pub mod adding;
pub mod adding_laws;
pub mod commands;
pub mod commands_laws;
pub mod listing;
pub mod manager;
pub mod manager_laws;
pub mod number_laws;
pub mod restore;
pub mod settings;
pub mod space;
pub mod trackers;
pub mod types;
pub mod utils;
