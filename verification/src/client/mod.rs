//! What a client reads from the pages it fetches before it connects.
pub mod dead_render;
pub mod event;
pub mod upload;
pub mod manager;
pub mod channel;
pub mod fetch;
