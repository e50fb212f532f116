//! The fragment tree of a LiveView: its exec representation, its
//! mathematical model, merging of server diffs and rendering.
pub mod types;
pub mod error;
pub mod clone;
pub mod model;
pub mod merge;
pub mod root;
pub mod render;
pub mod unfold;
pub mod fuel;
pub mod wasm;

pub use error::{MergeError, RenderError, StreamConversionError};
pub use root::FragmentMerge;
pub use types::{
    Child, ChildDiff, Component, ComponentDiff, ComponentStatics, Dynamics, DynamicsDiff, Fragment,
    FragmentDiff, OneOrManyStrings, Root, RootDiff, Statics, Stream, StreamAttribute, StreamInsert,
    StreamItem, StreamUpdate, Templates,
};
