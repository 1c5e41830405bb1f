//! Error taxonomy for the viewer core.

use vstd::prelude::*;

verus! {

/// Failures surfaced by the line-access and search subsystem. All of them are
/// recoverable-by-caller conditions; no library operation panics.
#[derive(Debug)]
pub enum PogError {
    /// Local read failure; carries the reported reason.
    Io(String),
    /// Generic remote command failure.
    Ssh { host: String, message: String },
    /// Invalid text encoding on read.
    Utf8(String),
    /// The remote host could not be reached.
    ConnectionFailed { host: String },
    /// The file does not exist.
    FileNotFound { path: String },
    /// The file may not be read.
    PermissionDenied { path: String },
}

impl PogError {
    /// The human-readable rendering of this error.
    pub open spec fn spec_message(&self) -> Seq<char> {
        match self {
            PogError::Io(e) => "I/O error: "@ + e@,
            PogError::Ssh { host, message } =>
                "SSH error connecting to "@ + host@ + ": "@ + message@,
            PogError::Utf8(e) => "UTF-8 error: "@ + e@,
            PogError::ConnectionFailed { host } => "Failed to connect to "@ + host@,
            PogError::FileNotFound { path } => "File not found: "@ + path@,
            PogError::PermissionDenied { path } => "Permission denied: "@ + path@,
        }
    }

    /// Render the error as text for display.
    pub fn message(&self) -> (r: String)
        ensures
            r@ == self.spec_message(),
    {
        match self {
            PogError::Io(e) => "I/O error: ".to_owned().concat(e.as_str()),
            PogError::Ssh { host, message } => "SSH error connecting to "
                .to_owned()
                .concat(host.as_str())
                .concat(": ")
                .concat(message.as_str()),
            PogError::Utf8(e) => "UTF-8 error: ".to_owned().concat(e.as_str()),
            PogError::ConnectionFailed { host } =>
                "Failed to connect to ".to_owned().concat(host.as_str()),
            PogError::FileNotFound { path } =>
                "File not found: ".to_owned().concat(path.as_str()),
            PogError::PermissionDenied { path } =>
                "Permission denied: ".to_owned().concat(path.as_str()),
        }
    }
}

} // verus!
