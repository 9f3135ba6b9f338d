//! Map tiles for procedurally generated planets, and the registry of the
//! worlds that parameterise them.
//!
//! The crate holds the rules of the tile server: how a request is routed,
//! how paths, bodies and numbers are read, how worlds are created, stored
//! and written out, and how a rendered tile is laid out and encoded.
//! Sockets, files and floating-point sampling belong to the caller.

pub mod text;
pub mod parser;
pub mod generation;
pub mod worlds;
pub mod images;
pub mod server;
