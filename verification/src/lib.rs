use vstd::prelude::*;

pub mod text;
pub mod json;
pub mod merge;
pub mod state;
pub mod core_control;
pub mod connection;
pub mod profiles;
pub mod runtime_config;
pub mod traffic;
pub mod flags;
pub mod keys;
pub mod deep_link;
pub mod tray;
pub mod sysproxy;
pub mod updater;
pub mod proxies;
pub mod bootstrap;
pub mod streaming;
pub mod ui;
pub mod pixels;
pub mod providers;
pub mod rule_editor;
