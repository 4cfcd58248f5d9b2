//! Launcher entries stored one per file: the file format, the filename that
//! a name maps to, choosing an entry by index or name, and the steps that
//! store, replace and delete entries.

pub mod codec;
pub mod desktop;
pub mod lifecycle;
pub mod select;
pub mod slug;
pub mod store;
pub mod text;
