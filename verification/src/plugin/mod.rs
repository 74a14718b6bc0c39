//! Plugins: what they say of themselves, how they are loaded, and how they live.
pub mod description;
pub mod abi;
pub mod health;
pub mod scope;
pub mod order;
pub mod registries;
pub mod context;
pub mod manager;
pub mod turns;
pub mod lifecycle;
pub mod conduct;
pub mod overview;
pub mod dynamic;
