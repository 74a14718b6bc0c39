//! Configuration: the framework's own, the connections', and the plugins'.
pub mod arona;
pub mod onebot;
pub mod edit;
pub mod load;
pub mod settings;
pub mod plugin_config;
pub mod section;
