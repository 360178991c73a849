pub mod text;
pub mod keys;
pub mod protocol;
pub mod commands;
pub mod screen_monitor;
pub mod plugin;
