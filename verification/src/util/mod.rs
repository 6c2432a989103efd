//! Contains useful objects which can be used in request handlers.

pub mod byterange;
pub mod path;
pub mod fs;
