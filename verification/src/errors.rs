use vstd::prelude::*;

verus! {

/// Errors raised by the library's parsing, framing and configuration logic.
#[derive(Debug, Clone, PartialEq, Eq)]
pub enum EnderError {
    /// No backend server is available for a protocol route.
    NoBackend(String),
    /// A configuration value is invalid or references a disabled feature:
    /// where it occurred, and why.
    Config(String, String),
    /// A Minecraft packet could not be parsed.
    PacketParse(String),
    /// Connecting to or proxying to a backend target failed.
    Proxy(String),
    /// The auto-wakeup command failed to execute.
    WakeupFailure(String, String),
}

/// Result alias used throughout the library.
pub type Result<T> = core::result::Result<T, EnderError>;

} // verus!
