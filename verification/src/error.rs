//! Error type of the library.
use vstd::prelude::*;

verus! {

/// Library error. Variants that wrap an error of the host environment (I/O,
/// serial port, serialisation formats) carry that error's message.
#[derive(Debug, Clone)]
pub enum Error {
    Io(String),
    Serial(String),
    NoAdapter,
    AdapterInit(String),
    Timeout,
    Protocol(String),
    Decode(String),
    Capture(String),
    Profile { path: String, message: String },
    Yaml(String),
    Json(String),
    TomlSer(String),
    TomlDe(String),
    WriteGated(String),
}

/// The human-readable message of an error.
pub open spec fn error_text(e: Error) -> Seq<char> {
    match e {
        Error::Io(m) => "I/O error: "@ + m@,
        Error::Serial(m) => "serial port error: "@ + m@,
        Error::NoAdapter => "no serial OBD adapter found"@,
        Error::AdapterInit(m) => "adapter init failed: "@ + m@,
        Error::Timeout => "timeout while wait for adapter response"@,
        Error::Protocol(m) => "protocol error: "@ + m@,
        Error::Decode(m) => "decode error: "@ + m@,
        Error::Capture(m) => "capture error: "@ + m@,
        Error::Profile { path, message } => "profile error at "@ + path@ + ": "@ + message@,
        Error::Yaml(m) => "YAML error: "@ + m@,
        Error::Json(m) => "JSON error: "@ + m@,
        Error::TomlSer(m) => "TOML serialize error: "@ + m@,
        Error::TomlDe(m) => "TOML parse error: "@ + m@,
        Error::WriteGated(m) => "operation is write-gated: "@ + m@,
    }
}

impl Error {
    /// The message this error displays.
    pub fn message(&self) -> (r: String)
        ensures
            r@ == error_text(*self),
    {
        match self {
            Error::Io(m) => crate::text::concat("I/O error: ", m.as_str()),
            Error::Serial(m) => crate::text::concat("serial port error: ", m.as_str()),
            Error::NoAdapter => crate::text::owned("no serial OBD adapter found"),
            Error::AdapterInit(m) => crate::text::concat("adapter init failed: ", m.as_str()),
            Error::Timeout => crate::text::owned("timeout while wait for adapter response"),
            Error::Protocol(m) => crate::text::concat("protocol error: ", m.as_str()),
            Error::Decode(m) => crate::text::concat("decode error: ", m.as_str()),
            Error::Capture(m) => crate::text::concat("capture error: ", m.as_str()),
            Error::Profile { path, message } => {
                let mut r = crate::text::concat("profile error at ", path.as_str());
                crate::text::push_str(&mut r, ": ");
                crate::text::push_str(&mut r, message.as_str());
                r
            },
            Error::Yaml(m) => crate::text::concat("YAML error: ", m.as_str()),
            Error::Json(m) => crate::text::concat("JSON error: ", m.as_str()),
            Error::TomlSer(m) => crate::text::concat("TOML serialize error: ", m.as_str()),
            Error::TomlDe(m) => crate::text::concat("TOML parse error: ", m.as_str()),
            Error::WriteGated(m) => crate::text::concat("operation is write-gated: ", m.as_str()),
        }
    }
}

} // verus!
