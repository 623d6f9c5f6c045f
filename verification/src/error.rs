//! The library's error type.  Failures of outside collaborators (network,
//! database, archive decoding, JSON) reach the library as plain messages.

use vstd::prelude::*;

verus! {

/// A typed failure carrying a human-readable message.
#[derive(Debug, Clone, PartialEq, Eq)]
pub enum AppError {
    /// The network was unreachable or an HTTP request failed.
    Network(String),
    /// The installed-addon store failed.
    Database(String),
    /// A filesystem operation failed.
    FileSystem(String),
    /// A compressed archive was corrupt or unreadable.
    Archive(String),
    /// A JSON document could not be parsed.
    Json(String),
    /// An operation named a slug that is not known.
    AddonNotFound(String),
    /// No valid manifest was found where one is required.
    InvalidManifest(String),
    /// The game's addon directory could not be located.
    EsoDirectoryNotFound,
    /// An upstream repository does not exist.
    RepoNotFound(String),
    /// Every candidate download source was tried and failed.
    Download(String),
    /// Any other failure.
    Custom(String),
}

impl AppError {
    /// A display string for the error, in place of `Display`.
    pub fn message(&self) -> (r: String)
        ensures
            match self {
                AppError::Network(m) => r@ == "Network error: "@ + m@,
                AppError::Database(m) => r@ == "Database error: "@ + m@,
                AppError::FileSystem(m) => r@ == "File system error: "@ + m@,
                AppError::Archive(m) => r@ == "Archive error: "@ + m@,
                AppError::Json(m) => r@ == "JSON error: "@ + m@,
                AppError::AddonNotFound(m) => r@ == "Addon not found: "@ + m@,
                AppError::InvalidManifest(m) => r@ == "Invalid manifest: "@ + m@,
                AppError::EsoDirectoryNotFound => r@ == "ESO directory not found"@,
                AppError::RepoNotFound(m) => r@ == "Repository not found: "@ + m@,
                AppError::Download(m) => r@ == "Download failed: "@ + m@,
                AppError::Custom(m) => r@ == m@,
            },
    {
        match self {
            AppError::Network(m) => String::from_str("Network error: ").concat(m.as_str()),
            AppError::Database(m) => String::from_str("Database error: ").concat(m.as_str()),
            AppError::FileSystem(m) => String::from_str("File system error: ").concat(m.as_str()),
            AppError::Archive(m) => String::from_str("Archive error: ").concat(m.as_str()),
            AppError::Json(m) => String::from_str("JSON error: ").concat(m.as_str()),
            AppError::AddonNotFound(m) => String::from_str("Addon not found: ").concat(m.as_str()),
            AppError::InvalidManifest(m) => String::from_str("Invalid manifest: ").concat(
                m.as_str(),
            ),
            AppError::EsoDirectoryNotFound => String::from_str("ESO directory not found"),
            AppError::RepoNotFound(m) => String::from_str("Repository not found: ").concat(
                m.as_str(),
            ),
            AppError::Download(m) => String::from_str("Download failed: ").concat(m.as_str()),
            AppError::Custom(m) => m.clone(),
        }
    }
}

} // verus!
