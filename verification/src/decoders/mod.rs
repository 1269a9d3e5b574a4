//! Signal decoders that turn one or more digital signals into structured data.
//!
//! A decoder is defined by a schema that selects a parameterized engine. A new
//! variant of a supported protocol only needs a schema; a new protocol family
//! needs a new engine.
pub mod cache;
pub mod decoder;
pub mod engines;
pub mod error;
pub mod input;
pub mod registry;
pub mod schema;
pub mod schema_laws;
pub mod settings;
pub mod value;
pub mod value_laws;
