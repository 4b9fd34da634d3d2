//! Reports how a directory's listing changed since a cached snapshot.
pub mod diff;
pub mod engine;
pub mod number;
pub mod render;
pub mod snapshot;
pub mod text;
