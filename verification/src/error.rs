//! The application error taxonomy and its user-facing rendering.

use crate::text::{seq_contains, str_contains};
use vstd::prelude::*;

verus! {

/// Application-wide error type, one variant per subsystem, each carrying its
/// message text.
#[derive(Clone, Debug)]
pub enum FFStudioError {
    /// File system related errors
    FileSystem(String),
    /// FFmpeg execution errors
    FFmpeg(String),
    /// Workflow related errors
    Workflow(String),
    /// Network/server errors
    Network(String),
    /// JSON serialization/deserialization errors
    Json(String),
    /// Command parsing errors
    Parse(String),
    /// General application errors
    Application(String),
    /// IO errors
    Io(String),
    /// Wildcard expansion errors
    Glob(String),
    /// Wildcard pattern errors
    Pattern(String),
}

impl FFStudioError {
    /// A file-system error with this message.
    pub fn file_system(msg: &str) -> (e: FFStudioError)
        ensures
            e matches FFStudioError::FileSystem(m) && m@ == msg@,
    {
        FFStudioError::FileSystem(msg.to_owned())
    }

    /// An FFmpeg execution error with this message.
    pub fn ffmpeg(msg: &str) -> (e: FFStudioError)
        ensures
            e matches FFStudioError::FFmpeg(m) && m@ == msg@,
    {
        FFStudioError::FFmpeg(msg.to_owned())
    }

    /// A workflow error with this message.
    pub fn workflow(msg: &str) -> (e: FFStudioError)
        ensures
            e matches FFStudioError::Workflow(m) && m@ == msg@,
    {
        FFStudioError::Workflow(msg.to_owned())
    }

    /// A network error with this message.
    pub fn network(msg: &str) -> (e: FFStudioError)
        ensures
            e matches FFStudioError::Network(m) && m@ == msg@,
    {
        FFStudioError::Network(msg.to_owned())
    }

    /// A JSON error with this message.
    pub fn json(msg: &str) -> (e: FFStudioError)
        ensures
            e matches FFStudioError::Json(m) && m@ == msg@,
    {
        FFStudioError::Json(msg.to_owned())
    }

    /// A command-parsing error with this message.
    pub fn parse(msg: &str) -> (e: FFStudioError)
        ensures
            e matches FFStudioError::Parse(m) && m@ == msg@,
    {
        FFStudioError::Parse(msg.to_owned())
    }

    /// A general application error with this message.
    pub fn application(msg: &str) -> (e: FFStudioError)
        ensures
            e matches FFStudioError::Application(m) && m@ == msg@,
    {
        FFStudioError::Application(msg.to_owned())
    }

    /// An IO error with this message.
    pub fn io(msg: &str) -> (e: FFStudioError)
        ensures
            e matches FFStudioError::Io(m) && m@ == msg@,
    {
        FFStudioError::Io(msg.to_owned())
    }

    /// A wildcard-expansion error with this message.
    pub fn glob(msg: &str) -> (e: FFStudioError)
        ensures
            e matches FFStudioError::Glob(m) && m@ == msg@,
    {
        FFStudioError::Glob(msg.to_owned())
    }

    /// A wildcard-pattern error with this message.
    pub fn pattern(msg: &str) -> (e: FFStudioError)
        ensures
            e matches FFStudioError::Pattern(m) && m@ == msg@,
    {
        FFStudioError::Pattern(msg.to_owned())
    }
}

/// The user-facing text of an error: well-known causes are reworded, anything
/// else is prefixed with its subsystem.
pub open spec fn user_message_spec(e: FFStudioError) -> Seq<char> {
    match e {
        FFStudioError::FileSystem(msg) => if seq_contains(msg@, "Permission denied"@) {
            "Permission denied. Please check file permissions."@
        } else if seq_contains(msg@, "No such file"@) {
            "File not found. Please check the file path."@
        } else {
            "File system error: "@ + msg@
        },
        FFStudioError::FFmpeg(msg) => if seq_contains(msg@, "not found"@) {
            "FFmpeg not found. Please install FFmpeg or check the path."@
        } else if seq_contains(msg@, "Permission denied"@) {
            "Permission denied when running FFmpeg."@
        } else {
            "FFmpeg error: "@ + msg@
        },
        FFStudioError::Workflow(msg) => "Workflow error: "@ + msg@,
        FFStudioError::Network(msg) => "Network error: "@ + msg@,
        FFStudioError::Json(msg) => "Invalid data format. Please try again."@,
        FFStudioError::Parse(msg) => "Parse error: "@ + msg@,
        FFStudioError::Application(msg) => "Application error: "@ + msg@,
        FFStudioError::Io(msg) => if seq_contains(msg@, "Permission denied"@) {
            "Permission denied. Please check file permissions."@
        } else {
            "IO error: "@ + msg@
        },
        FFStudioError::Glob(msg) => "Glob error: "@ + msg@,
        FFStudioError::Pattern(msg) => "Pattern error: "@ + msg@,
    }
}

/// Prefix a message with its subsystem label.
fn prefixed(label: &str, msg: &String) -> (r: String)
    ensures
        r@ == label@ + msg@,
{
    let mut r = label.to_owned();
    r.append(msg.as_str());
    r
}

/// Convert an error to a user-friendly message for display.
pub fn to_user_message(error: &FFStudioError) -> (r: String)
    ensures
        r@ == user_message_spec(*error),
{
    match error {
        FFStudioError::FileSystem(msg) => {
            if str_contains(msg.as_str(), "Permission denied") {
                "Permission denied. Please check file permissions.".to_owned()
            } else if str_contains(msg.as_str(), "No such file") {
                "File not found. Please check the file path.".to_owned()
            } else {
                prefixed("File system error: ", msg)
            }
        },
        FFStudioError::FFmpeg(msg) => {
            if str_contains(msg.as_str(), "not found") {
                "FFmpeg not found. Please install FFmpeg or check the path.".to_owned()
            } else if str_contains(msg.as_str(), "Permission denied") {
                "Permission denied when running FFmpeg.".to_owned()
            } else {
                prefixed("FFmpeg error: ", msg)
            }
        },
        FFStudioError::Workflow(msg) => prefixed("Workflow error: ", msg),
        FFStudioError::Network(msg) => prefixed("Network error: ", msg),
        FFStudioError::Json(_msg) => "Invalid data format. Please try again.".to_owned(),
        FFStudioError::Parse(msg) => prefixed("Parse error: ", msg),
        FFStudioError::Application(msg) => prefixed("Application error: ", msg),
        FFStudioError::Io(msg) => {
            if str_contains(msg.as_str(), "Permission denied") {
                "Permission denied. Please check file permissions.".to_owned()
            } else {
                prefixed("IO error: ", msg)
            }
        },
        FFStudioError::Glob(msg) => prefixed("Glob error: ", msg),
        FFStudioError::Pattern(msg) => prefixed("Pattern error: ", msg),
    }
}

} // verus!
