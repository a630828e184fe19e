//! What the server answers.
pub mod access;
pub mod answer_laws;
pub mod assets;
pub mod files;
pub mod scraper;
pub mod scraper_laws;
pub mod types;
