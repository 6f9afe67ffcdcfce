//! What can go wrong while talking to trackers and peers.

use std::io::Error as IoError;
use vstd::prelude::*;
use vstd::std_specs::convert::FromSpecImpl;

verus! {

/// The error of an operation on a socket.
#[verifier::external_type_specification]
#[verifier::external_body]
pub struct ExIoError(IoError);

/// What is wrong with a message that `bincode` was to write or read.
#[verifier::external_type_specification]
#[verifier::external_body]
pub struct ExBincodeErrorKind(bincode::ErrorKind);

#[derive(Debug)]
pub enum Error {
    ConnectSendFailed,
    TrackerSocketAddrs(IoError),
    TrackerNoHosts,
    TrackerResponse,
    Bincode(Box<bincode::ErrorKind>),
    /// The handshake of the peer does not answer ours.
    HandshakeInvalid,
    /// Bytes from the peer are not the bencoding of what they should be.
    BencodeError,
}

impl From<IoError> for Error {
    fn from(error: IoError) -> (converted: Error) {
        Error::TrackerSocketAddrs(error)
    }
}

impl FromSpecImpl<IoError> for Error {
    open spec fn obeys_from_spec() -> bool {
        true
    }

    open spec fn from_spec(error: IoError) -> Error {
        Error::TrackerSocketAddrs(error)
    }
}

impl From<Box<bincode::ErrorKind>> for Error {
    fn from(error: Box<bincode::ErrorKind>) -> (converted: Error) {
        Error::Bincode(error)
    }
}

impl FromSpecImpl<Box<bincode::ErrorKind>> for Error {
    open spec fn obeys_from_spec() -> bool {
        true
    }

    open spec fn from_spec(error: Box<bincode::ErrorKind>) -> Error {
        Error::Bincode(error)
    }
}

impl Error {
    /// The sentence that tells a user of the error. For [`Error::Bincode`] it is the text of the
    /// error inside.
    pub fn message(&self) -> (text: String)
        ensures
            match *self {
                Error::ConnectSendFailed => text@
                    == "Failed to send a connect request to the tracker"@,
                Error::TrackerSocketAddrs(_) => text@ == "Failed to resolve socket address"@,
                Error::TrackerNoHosts => text@ == "Tracker resolved to no unusable addresses"@,
                Error::TrackerResponse => text@
                    == "The response received from the connect handshake was wrong"@,
                Error::Bincode(error) => vstd::string::to_string_from_display_ensures::<
                    Box<bincode::ErrorKind>,
                >(&error, text),
                Error::HandshakeInvalid => text@
                    == "The handshake received from the peer is invalid"@,
                Error::BencodeError => text@
                    == "The bencoded bytes received from the peer are malformed"@,
            },
    {
        match self {
            Error::ConnectSendFailed => "Failed to send a connect request to the tracker".to_owned(),
            Error::TrackerSocketAddrs(_) => "Failed to resolve socket address".to_owned(),
            Error::TrackerNoHosts => "Tracker resolved to no unusable addresses".to_owned(),
            Error::TrackerResponse => {
                "The response received from the connect handshake was wrong".to_owned()
            },
            Error::Bincode(error) => error.to_string(),
            Error::HandshakeInvalid => "The handshake received from the peer is invalid".to_owned(),
            Error::BencodeError => {
                "The bencoded bytes received from the peer are malformed".to_owned()
            },
        }
    }
}

} // verus!
