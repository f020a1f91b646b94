//! Named local/remote path pairs kept in a two-level document, and the
//! decisions around synchronising them.

pub mod codec;
pub mod config;
pub mod error;
pub mod input;
pub mod profile;
pub mod sync;
pub mod table;
