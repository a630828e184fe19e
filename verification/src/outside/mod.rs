//! What the library takes from other crates and from the machine.
pub mod clock;
pub mod codec;
pub mod dates;
pub mod magnet_laws;
pub mod magnets;
pub mod markup;
pub mod page_laws;
pub mod pages;
pub mod patterns;
pub mod urls;
