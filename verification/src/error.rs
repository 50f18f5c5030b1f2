//! The failures that the commands report.

use vstd::prelude::*;

verus! {

/// The closed set of failure categories.
#[derive(Clone, Copy, Debug, PartialEq, Eq, Structural)]
pub enum FailureKind {
    /// An operation needed a configuration and none is installed.
    ConfigNotLoaded,
    /// The named server is not registered in the configuration.
    ServerNotFound,
    /// The named preset is not registered in the configuration.
    PresetNotFound,
    /// The stored container could not be opened with the passphrase.
    DecryptionFailure,
    /// The bytes of a configuration could not be produced or understood.
    SerializationFailure,
    /// The transport or the session with a server could not be set up.
    ConnectionFailure,
    /// The server refused the credentials.
    AuthenticationFailure,
    /// The command channel failed.
    ChannelFailure,
    /// The configuration could not be made ready for, or moved to or from, its file.
    PersistenceIOFailure,
}

/// A failure: its category and the human-readable detail.
#[derive(Debug)]
pub struct Failure {
    pub kind: FailureKind,
    pub message: String,
}

impl Failure {
    /// A failure of the kind, with the detail.
    pub fn new(kind: FailureKind, message: String) -> (e: Failure)
        ensures
            e.kind == kind,
            e.message@ == message@,
    {
        Failure { kind, message }
    }

    /// True when this failure has the given category and detail.
    pub open spec fn carries(&self, kind: FailureKind, message: Seq<char>) -> bool {
        self.kind == kind && self.message@ == message
    }
}

} // verus!
