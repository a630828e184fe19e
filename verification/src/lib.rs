//! The decisions of a torrent server.
pub mod common;
pub mod engine;
pub mod order;
pub mod outside;
pub mod rss;
pub mod server;
pub mod text;
pub mod text_laws;
pub mod textmap;
pub mod ui;
pub mod view_laws;
