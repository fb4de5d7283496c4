//! The decisions behind the two windows (the browser picker and the
//! settings screen) and the tray icon. Drawing and the window system are the
//! application's.

pub mod picker;
pub mod settings;
pub mod tray;
