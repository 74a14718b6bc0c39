//! What connections, plugins and configuration share.
pub mod config;
pub mod message;
pub mod priority;
