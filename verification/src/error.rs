//! What can go wrong, and what is only worth a warning.

use vstd::prelude::*;

verus! {

/// The kinds of failure the engine tells apart.
#[derive(Clone, Copy, Debug, PartialEq, Eq, Structural)]
pub enum LoadError {
    /// The path was missing when it was to be loaded.
    NotFound,
    /// A soundpack, or one of its entries, is structurally invalid.
    Malformed,
    /// A passing I/O failure, such as a file that is locked for a moment.
    Unavailable,
    /// A rule names an audio asset that is not there.
    ClipMissing,
}

/// An entry-level problem: the entry is skipped and the rest stays usable.
#[derive(Debug, PartialEq, Eq)]
pub enum Warning {
    /// The channel declared at this position of the manifest was skipped.
    MalformedChannel { position: usize },
    /// The rule declared at this position of the manifest was skipped.
    MalformedRule { position: usize },
    /// A trigger on this channel chose a clip that could not be resolved.
    ClipMissing { channel: String, clip: String },
}

impl Warning {
    /// The kind of failure this warning stands for.
    pub open spec fn spec_kind(self) -> LoadError {
        match self {
            Warning::MalformedChannel { .. } => LoadError::Malformed,
            Warning::MalformedRule { .. } => LoadError::Malformed,
            Warning::ClipMissing { .. } => LoadError::ClipMissing,
        }
    }

    /// A copy of the warning.
    pub fn duplicate(&self) -> (copy: Warning)
        ensures
            copy == *self,
    {
        match self {
            Warning::MalformedChannel { position } => Warning::MalformedChannel {
                position: *position,
            },
            Warning::MalformedRule { position } => Warning::MalformedRule { position: *position },
            Warning::ClipMissing { channel, clip } => Warning::ClipMissing {
                channel: channel.clone(),
                clip: clip.clone(),
            },
        }
    }

    /// The kind of failure this warning stands for.
    pub fn kind(&self) -> (kind: LoadError)
        ensures
            kind == self.spec_kind(),
    {
        match self {
            Warning::MalformedChannel { .. } => LoadError::Malformed,
            Warning::MalformedRule { .. } => LoadError::Malformed,
            Warning::ClipMissing { .. } => LoadError::ClipMissing,
        }
    }
}

} // verus!
