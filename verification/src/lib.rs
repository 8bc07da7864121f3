//! Verified core of a cache explorer for a game client's asset cache:
//! recognising assets from their bytes, cutting them out of cache records,
//! fingerprinting them and tracking what changed since a cache checkpoint.

pub mod gui;
pub mod logic;
pub mod text;
