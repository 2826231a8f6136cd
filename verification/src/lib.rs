pub mod text;
pub mod keys;
pub mod config;
pub mod ini;
pub mod config_parse;
pub mod config_impl;
pub mod keyboard;
pub mod device;
pub mod ipc;
pub mod vkbd;
pub mod schedule;
pub mod runnable;
