//! The errors of the library. What an outside component reported is held
//! as its message.

use vstd::prelude::*;

verus! {

/// What a remote playback daemon can answer in place of a result.
#[derive(Debug, Clone, PartialEq, Eq)]
pub enum MpdError {
    /// The connection could not be set up; the text is what was received.
    MpdClient(String),
    /// The server refused a command: the lines it sent before, and its
    /// refusal.
    MpdProtocol(Vec<String>, String),
}

/// A failure while reading or playing an audio file.
#[derive(Debug, Clone, PartialEq, Eq)]
pub enum LibraryError {
    LibraryMetadata(String),
    LibraryPlayback(String),
    DecoderError(String),
}

/// Every way in which an operation of the player can fail.
#[derive(Debug, Clone, PartialEq, Eq)]
pub enum AppError {
    Io(String),
    Csv(String),
    /// A cache record that does not have the columns of a track.
    CsvParse,
    PoisonError(String),
    SendError(String),
    Walkdir(String),
    LibraryClient(LibraryError),
    MpdClient(MpdError),
    Unimplemented,
    NoConfig,
    BadConfig,
    NotSupported,
    BadUnwrap(Option<String>),
}

} // verus!
