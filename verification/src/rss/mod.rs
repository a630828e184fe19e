//! Feeds: reading them, and remembering what was seen.
pub mod feed;
pub mod feed_laws;
pub mod item;
pub mod item_laws;
pub mod known;
pub mod laws;
pub mod link_laws;
pub mod links;
pub mod loads;
pub mod refresh_laws;
pub mod service;
pub mod state;
pub mod state_laws;
