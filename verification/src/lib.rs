//! Client-binding toolkit for a remote token program: a schema-driven binding
//! generator, its binary encoding runtime, and deterministic address derivation.

pub mod bytes;
pub mod derive;
pub mod discriminator;
pub mod encode;
pub mod generate;
pub mod json;
pub mod loader;
pub mod schema;
