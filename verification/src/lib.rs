//! Python semantic navigation: the rendering, ranking, validation and text
//! handling behind the `lspyx` command line and MCP server.
#![allow(unused_imports)]

pub mod text;
pub mod paths;
pub mod model;
pub mod render;
pub mod diagnostics;
pub mod lsp;
pub mod rename;
pub mod json;
pub mod response;
pub mod outline;
pub mod daemon;
pub mod adapter;
pub mod mcp;
pub mod dispatch;
pub mod cli;
pub mod workspace;
