//! Application error type.

use vstd::prelude::*;

verus! {

/// Application error, by the subsystem that failed.
#[derive(Clone, Debug)]
pub enum PowerClipError {
    /// Clipboard operation failed.
    Clipboard(String),
    /// Database operation failed.
    Database(String),
    /// File I/O operation failed.
    Io(String),
    /// Hotkey registration failed.
    Hotkey(String),
    /// Window operation failed.
    Window(String),
    /// Configuration error.
    Config(String),
    /// Image processing failed.
    Image(String),
    /// JSON serialization or deserialization failed.
    Json(String),
}

impl PowerClipError {
    /// The prefix that names the failed subsystem.
    pub open spec fn prefix(&self) -> Seq<char> {
        match self {
            PowerClipError::Clipboard(_) => "Clipboard error: "@,
            PowerClipError::Database(_) => "Database error: "@,
            PowerClipError::Io(_) => "I/O error: "@,
            PowerClipError::Hotkey(_) => "Hotkey error: "@,
            PowerClipError::Window(_) => "Window error: "@,
            PowerClipError::Config(_) => "Config error: "@,
            PowerClipError::Image(_) => "Image error: "@,
            PowerClipError::Json(_) => "JSON error: "@,
        }
    }

    /// The detail carried by the error.
    pub open spec fn detail(&self) -> Seq<char> {
        match self {
            PowerClipError::Clipboard(m) => m@,
            PowerClipError::Database(m) => m@,
            PowerClipError::Io(m) => m@,
            PowerClipError::Hotkey(m) => m@,
            PowerClipError::Window(m) => m@,
            PowerClipError::Config(m) => m@,
            PowerClipError::Image(m) => m@,
            PowerClipError::Json(m) => m@,
        }
    }

    /// The message shown for the error: subsystem prefix, then detail.
    pub fn message(&self) -> (r: String)
        ensures
            r@ == self.prefix() + self.detail(),
    {
        let (prefix, detail): (&str, &String) = match self {
            PowerClipError::Clipboard(m) => ("Clipboard error: ", m),
            PowerClipError::Database(m) => ("Database error: ", m),
            PowerClipError::Io(m) => ("I/O error: ", m),
            PowerClipError::Hotkey(m) => ("Hotkey error: ", m),
            PowerClipError::Window(m) => ("Window error: ", m),
            PowerClipError::Config(m) => ("Config error: ", m),
            PowerClipError::Image(m) => ("Image error: ", m),
            PowerClipError::Json(m) => ("JSON error: ", m),
        };
        let mut out = String::from_str(prefix);
        out.append(detail.as_str());
        out
    }
}

/// A configuration error carrying `msg`.
pub fn err<T>(msg: &str) -> (r: Result<T, PowerClipError>)
    ensures
        match r {
            Err(PowerClipError::Config(m)) => m@ == msg@,
            _ => false,
        },
{
    Err(PowerClipError::Config(msg.to_owned()))
}

} // verus!
