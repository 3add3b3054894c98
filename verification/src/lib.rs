//! Knowledge-graph library for novel writing: chapter parsing, an in-memory
//! graph buffer, node/edge models and the pure parts of the MCP tools.

pub mod text;
pub mod models;
pub mod pipeline;
pub mod store;
pub mod mcp;
pub mod cli;
pub mod ui;
