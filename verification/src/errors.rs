//! The failure modes shared by every layer of the library.

use vstd::prelude::*;

verus! {

/// Everything that can go wrong while chunking, embedding, querying,
/// registering agents or framing protocol messages. Business failures are
/// recoverable: the protocol layer turns them into textual responses.
#[derive(Clone, Copy, PartialEq, Eq, Structural, Debug)]
pub enum Error {
    /// Invalid chunking parameters (zero target size, or overlap that is
    /// not smaller than the target size).
    Config,
    /// The embedding provider failed, or handed back vectors whose shape
    /// does not match the chunks they are supposed to describe.
    Embedding,
    /// A query was made against a store that holds no chunks.
    EmptyStore,
    /// An agent was registered under a key that is already taken.
    DuplicateKey,
    /// A key was selected that names no registered agent.
    UnknownKey,
    /// A question was asked while no agent is current.
    NoCurrentAgent,
    /// A malformed or truncated protocol frame or request line.
    ProtocolFrame,
    /// A corpus source could not be fetched or read.
    Ingestion,
}

impl Error {
    /// The user-visible text of this error, as the protocol server sends it.
    pub open spec fn spec_message(self) -> Seq<char> {
        match self {
            Error::Config => "Invalid chunk configuration"@,
            Error::Embedding => "Embedding failure"@,
            Error::EmptyStore => "Store is empty"@,
            Error::DuplicateKey => "Key already exists"@,
            Error::UnknownKey => "Unknown agent key"@,
            Error::NoCurrentAgent => "No current agent"@,
            Error::ProtocolFrame => "Malformed request"@,
            Error::Ingestion => "Ingestion failure"@,
        }
    }

    /// Renders the error as the exact text that `spec_message` describes.
    pub fn message(&self) -> (r: String)
        ensures
            r@ == self.spec_message(),
    {
        match self {
            Error::Config => String::from_str("Invalid chunk configuration"),
            Error::Embedding => String::from_str("Embedding failure"),
            Error::EmptyStore => String::from_str("Store is empty"),
            Error::DuplicateKey => String::from_str("Key already exists"),
            Error::UnknownKey => String::from_str("Unknown agent key"),
            Error::NoCurrentAgent => String::from_str("No current agent"),
            Error::ProtocolFrame => String::from_str("Malformed request"),
            Error::Ingestion => String::from_str("Ingestion failure"),
        }
    }
}

} // verus!
