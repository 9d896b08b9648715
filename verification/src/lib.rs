pub mod text;
pub mod boundary;
pub mod paths;
pub mod shell;
pub mod keys;
pub mod session;
pub mod config;
pub mod cli;
pub mod mcp;
