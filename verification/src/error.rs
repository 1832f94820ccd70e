//! Error taxonomy of the snapshot engine and the scaffolder.

use vstd::prelude::*;

verus! {

/// Failure of a snapshot-store operation.
#[derive(Clone, Debug, PartialEq, Eq, Structural)]
pub enum StoreError {
    /// No record of the requested name exists.
    NotFound,
    /// The stored bytes do not decode to a record, or their checksum
    /// does not match.
    Corrupt,
    /// The stored record's schema version exceeds the versions this
    /// reader knows.
    UnsupportedVersion,
    /// The snapshot name is not in the portable charset the store accepts.
    InvalidName,
}

/// Failure of a workspace capture.
#[derive(Clone, Debug, PartialEq, Eq, Structural)]
pub enum CaptureError {
    /// The host session could not be queried.
    SessionUnavailable,
    /// The session holds no window with at least one pane.
    EmptyWorkspace,
}

/// Failure of a scaffold operation.
#[derive(Clone, Debug, PartialEq, Eq, Structural)]
pub enum ScaffoldError {
    /// The template id is not in the registry.
    UnknownTemplate,
    /// The target directory is non-empty and overwrite was not requested.
    TargetExists,
}

impl StoreError {
    /// A short description, for the surrounding binary to render.
    pub fn message(&self) -> &'static str {
        match self {
            StoreError::NotFound => "snapshot not found",
            StoreError::Corrupt => "snapshot record is corrupt",
            StoreError::UnsupportedVersion => "snapshot schema version is not supported",
            StoreError::InvalidName => "snapshot name is not portable",
        }
    }
}

impl CaptureError {
    /// A short description, for the surrounding binary to render.
    pub fn message(&self) -> &'static str {
        match self {
            CaptureError::SessionUnavailable => "host session could not be queried",
            CaptureError::EmptyWorkspace => "workspace holds nothing to capture",
        }
    }
}

impl ScaffoldError {
    /// A short description, for the surrounding binary to render.
    pub fn message(&self) -> &'static str {
        match self {
            ScaffoldError::UnknownTemplate => "no template of that id is registered",
            ScaffoldError::TargetExists => "target directory is not empty",
        }
    }
}

} // verus!
