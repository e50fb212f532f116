use vstd::prelude::*;

verus! {

/// Why a stream update could not be turned into a stream.
#[derive(Debug, Clone, Copy, PartialEq, Eq, Structural)]
pub enum StreamConversionError {
    NoStreamID,
}

/// Why a diff could not be merged.
#[derive(Debug, Clone, Copy, PartialEq, Eq, Structural)]
pub enum MergeError {
    UnresolvedComponent,
    MissingComponent(i32),
    FragmentTypeMismatch,
    CreateComponentFromUpdate,
    CreateChildFromUpdateFragment,
    AddChildToExisting,
    StreamIDMismatch,
    Stream { error: StreamConversionError },
}

/// Why a tree could not be rendered.
#[derive(Debug, Clone, Copy, PartialEq, Eq, Structural)]
pub enum RenderError {
    NoComponents,
    NoTemplates,
    TemplateNotFound(i32),
    ComponentNotFound(i32),
    MergeError(MergeError),
    ChildNotFoundForTemplate(i32),
    ChildNotFoundForStatic(i32),
    CousinNotFound(i32),
}

impl From<MergeError> for RenderError {
    fn from(value: MergeError) -> (r: Self)
        ensures
            r == RenderError::MergeError(value),
    {
        RenderError::MergeError(value)
    }
}

impl vstd::std_specs::convert::FromSpecImpl<MergeError> for RenderError {
    open spec fn obeys_from_spec() -> bool {
        true
    }

    open spec fn from_spec(v: MergeError) -> RenderError {
        RenderError::MergeError(v)
    }
}

impl vstd::std_specs::convert::FromSpecImpl<StreamConversionError> for MergeError {
    open spec fn obeys_from_spec() -> bool {
        true
    }

    open spec fn from_spec(v: StreamConversionError) -> MergeError {
        MergeError::Stream { error: v }
    }
}

impl From<StreamConversionError> for MergeError {
    fn from(value: StreamConversionError) -> (r: Self)
        ensures
            r == (MergeError::Stream { error: value }),
    {
        MergeError::Stream { error: value }
    }
}

} // verus!
