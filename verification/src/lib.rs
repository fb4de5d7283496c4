use vstd::prelude::*;

pub mod browser;
pub mod cli;
pub mod config;
pub mod icon;
pub mod ipc;
pub mod lang;
pub mod registry;
pub mod text;
pub mod ui;
pub mod updater;
pub mod util;
pub mod version;
