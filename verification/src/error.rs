//! Domain errors of the resolution engine.

use vstd::prelude::*;

verus! {

/// Everything that can go wrong while resolving or launching a handler.
///
/// Payloads are the byte strings the failing operation worked on (a MIME
/// type, a path, a command line), so callers can report them.
#[derive(Debug, Clone, PartialEq, Eq)]
pub enum Error {
    /// No handler is resolvable for the given MIME type or path.
    NotFound(Vec<u8>),
    /// The MIME classification of the given path was inconclusive.
    Ambiguous(Vec<u8>),
    /// The given byte string is not a valid MIME type.
    InvalidMime(Vec<u8>),
    /// The desktop entry at the given path is malformed or incomplete.
    BadEntry(Vec<u8>),
    /// The exec template (first payload) of the desktop entry named by the
    /// second payload could not be split into shell words.
    BadExec(Vec<u8>, Vec<u8>),
    /// The given command could not be split into shell words.
    BadCmd(Vec<u8>),
    /// The selector process with the given command failed.
    Selector(Vec<u8>),
    /// The user aborted the selector; exits non-zero but prints nothing.
    Cancelled,
    /// A terminal is required but none could be found or configured.
    NoTerminal,
    /// The given user input is not a usable path.
    BadPath(Vec<u8>),
}

} // verus!
