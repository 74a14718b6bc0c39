//! Arona: the logic of a OneBot bot framework.
//!
//! The library holds configuration, protocol, hook, scheduling and plugin
//! life-cycle rules as plain values with proved contracts. Sockets, files,
//! clocks and dynamic libraries belong to the program around it.
pub mod text;
pub mod collections;
pub mod json;
pub mod yaml;
pub mod runtime;
pub mod onebot;
pub mod config;
pub mod container;
pub mod quartz;
pub mod plugin;
pub mod framework;
