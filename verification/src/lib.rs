//! Verified core of a terminal disk-usage browser: directory listings,
//! size totals, text shaping, screen layout and the browser's key-driven
//! state machine.

pub mod browser;
pub mod cli;
pub mod files;
pub mod lang;
pub mod layout;
pub mod screen;
pub mod size_cache;
pub mod text;
