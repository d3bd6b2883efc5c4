//! Engine of a language-server-protocol client.
//!
//! The crate models the part of an LSP client that needs care: workspace-root
//! resolution, request/response correlation per server handler, the
//! buffer-tracking lifecycle, and the per-event decisions of the dispatch
//! loop.  All decisions are made here over plain values; process spawning,
//! channel selection, JSON encoding and the concrete editor live outside the
//! library and act on the `Action` values it returns.

pub mod errors;
pub mod handler;
pub mod lspc;
pub mod msg;
pub mod rootpath;
pub mod table;
pub mod types;
