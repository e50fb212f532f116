//! The LiveView protocol: fragments sent by the server, merged and rendered
//! into markup.
pub mod fragment;
pub mod strict;
pub mod patch;
pub mod traversal;
pub mod morph;
pub mod apply;
