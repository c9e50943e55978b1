//! The error taxonomy of the library.
//!
//! Filesystem failures and transport failures reach the library only as
//! messages; the variants below carry everything the caller needs to tell
//! one failure from another.

use vstd::prelude::*;

verus! {

/// Every failure the library reports.
#[derive(Debug, Clone, PartialEq, Eq)]
pub enum AppError {
    /// A filesystem operation failed; the payload is its description.
    IoError(String),
    /// A transport or completion-service failure, surfaced after retries.
    DeepSeekError(String),
    /// A persisted record could not be decoded.
    TomlError(String),
    /// An input was rejected before any work was done.
    InvalidInput(String),
    /// A file exceeded the chunk-time byte ceiling.
    FileTooLarge,
    /// The whole response failed to parse as well-formed structure.
    PatchFormatError,
    /// A path named in the patch has no on-disk counterpart.
    UnresolvedPath(String),
    /// Rollback was requested but no rollback record exists.
    NoChangesToRollback,
    /// Revert was requested but no checkpoint record exists.
    NoCheckpointToRevert,
    /// A rollback record could not be used.
    RollbackError(String),
    /// A checkpoint could not be created or used.
    CheckpointError(String),
    /// No prompt was supplied for a patch run.
    MissingPrompt,
    /// No service key was supplied for a patch run.
    MissingApiKey,
}

/// The human-readable message of a failure; each variant's is distinct.
pub open spec fn spec_message(e: AppError) -> Seq<char> {
    match e {
        AppError::IoError(m) => "IO error: "@ + m@,
        AppError::DeepSeekError(m) => "DeepSeek API error: "@ + m@,
        AppError::TomlError(m) => "TOML parsing error: "@ + m@,
        AppError::InvalidInput(m) => "Invalid input: "@ + m@,
        AppError::FileTooLarge => "File too large"@,
        AppError::PatchFormatError => "Patch response was not well-formed"@,
        AppError::UnresolvedPath(m) => "No on-disk counterpart for path: "@ + m@,
        AppError::NoChangesToRollback => "No changes to rollback"@,
        AppError::NoCheckpointToRevert => "No checkpoint to revert to"@,
        AppError::RollbackError(m) => "Rollback error: "@ + m@,
        AppError::CheckpointError(m) => "Checkpoint error: "@ + m@,
        AppError::MissingPrompt => "Prompt is required"@,
        AppError::MissingApiKey => "API key is required"@,
    }
}

impl AppError {
    /// The failure as a human-readable message.
    pub fn message(&self) -> (r: String)
        ensures
            r@ == spec_message(*self),
    {
        match self {
            AppError::IoError(m) => {
                let mut r = String::from_str("IO error: ");
                r.append(m.as_str());
                r
            },
            AppError::DeepSeekError(m) => {
                let mut r = String::from_str("DeepSeek API error: ");
                r.append(m.as_str());
                r
            },
            AppError::TomlError(m) => {
                let mut r = String::from_str("TOML parsing error: ");
                r.append(m.as_str());
                r
            },
            AppError::InvalidInput(m) => {
                let mut r = String::from_str("Invalid input: ");
                r.append(m.as_str());
                r
            },
            AppError::FileTooLarge => String::from_str("File too large"),
            AppError::PatchFormatError => String::from_str("Patch response was not well-formed"),
            AppError::UnresolvedPath(m) => {
                let mut r = String::from_str("No on-disk counterpart for path: ");
                r.append(m.as_str());
                r
            },
            AppError::NoChangesToRollback => String::from_str("No changes to rollback"),
            AppError::NoCheckpointToRevert => String::from_str("No checkpoint to revert to"),
            AppError::RollbackError(m) => {
                let mut r = String::from_str("Rollback error: ");
                r.append(m.as_str());
                r
            },
            AppError::CheckpointError(m) => {
                let mut r = String::from_str("Checkpoint error: ");
                r.append(m.as_str());
                r
            },
            AppError::MissingPrompt => String::from_str("Prompt is required"),
            AppError::MissingApiKey => String::from_str("API key is required"),
        }
    }
}

} // verus!
