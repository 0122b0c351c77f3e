//! The ways in which a download can fail.

use vstd::prelude::*;

verus! {

/// Why a download, or one of its steps, failed.
#[derive(Clone, Copy, Debug, PartialEq, Eq, Structural)]
pub enum Error {
    /// The request could not be sent, or the reply carried a status outside
    /// the successful ones.
    RemoteError,
    /// A reply arrived, but lacked metadata the download depends on, or its
    /// body does not fit the range that was asked for.
    ProtocolError,
    /// A parameter supplied by the caller is not usable.
    ConfigError,
    /// The local file system refused an operation on the destination file.
    IOError,
    /// A segment task was cancelled or broke off before it could say how it
    /// ended.
    TaskError,
}

impl Error {
    /// The text shown for each kind of failure.
    pub open spec fn message_spec(self) -> Seq<char> {
        match self {
            Error::RemoteError => "RemoteError: the request failed or was answered with an error status"@,
            Error::ProtocolError => "ProtocolError: the reply does not describe the resource as required"@,
            Error::ConfigError => "ConfigError: the segment size or the number of workers is not usable"@,
            Error::IOError => "IOError: the destination file could not be created or written"@,
            Error::TaskError => "TaskError: a segment task ended without reporting"@,
        }
    }

    /// A human-readable description of the failure.
    pub fn message(&self) -> (text: String)
        ensures
            text@ == self.message_spec(),
    {
        match self {
            Error::RemoteError => String::from_str(
                "RemoteError: the request failed or was answered with an error status",
            ),
            Error::ProtocolError => String::from_str(
                "ProtocolError: the reply does not describe the resource as required",
            ),
            Error::ConfigError => String::from_str(
                "ConfigError: the segment size or the number of workers is not usable",
            ),
            Error::IOError => String::from_str(
                "IOError: the destination file could not be created or written",
            ),
            Error::TaskError => String::from_str(
                "TaskError: a segment task ended without reporting",
            ),
        }
    }
}

} // verus!
