//! The tools of the MCP server: checking and preparing what an agent asks
//! for, and what to ask the daemon.
pub mod inputs;
pub mod explore;
pub mod diagnostics;
pub mod rename;
pub mod transport;
