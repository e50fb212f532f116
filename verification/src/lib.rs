//! The core of a LiveView Native client: the virtual DOM, the LiveView
//! fragment protocol (merging server diffs and rendering them), string
//! interning and the navigation history.
pub mod callbacks;
pub mod navigation;
pub mod urls;
pub mod text;
pub mod diff;
pub mod dom;
pub mod interner;
pub mod config;
pub mod logging;
pub mod client;
