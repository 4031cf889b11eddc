//! The error type that the library reports upstream.
use vstd::prelude::*;

verus! {

#[verifier::external_type_specification]
#[verifier::external_body]
pub struct ExIoError(std::io::Error);

#[verifier::external_type_specification]
#[verifier::external_body]
pub struct ExSqlError(rusqlite::Error);

/// A unified error for the layers above.
#[derive(Debug)]
pub enum SPVError {
    /// No peer with this address (in text form) is known.
    UnknownPeer(String),
    /// A logic error, with its message.
    Generic(String),
    /// The peer does not follow the protocol: a score to add to its ban
    /// score, the reason, and the peer's address in text form.
    Misbehaving(u16, String, String),
    /// A socket or poller failure.
    IO(std::io::Error),
    /// A failure of the store.
    DB(rusqlite::Error),
    /// An unrecoverable breach of an invariant.
    Panic(String),
}

impl SPVError {
    /// A short description: the message or reason the error carries, or a
    /// fixed text for an unknown peer, or the outside error's own text.
    pub fn description(&self) -> (r: String)
        ensures
            self matches SPVError::Generic(s) ==> r@ == s@,
            self matches SPVError::Misbehaving(_, reason, _) ==> r@ == reason@,
            self matches SPVError::Panic(s) ==> r@ == s@,
            self matches SPVError::UnknownPeer(_) ==> r@ == "unknown peer"@,
    {
        match self {
            SPVError::UnknownPeer(_) => "unknown peer".to_owned(),
            SPVError::Generic(s) => s.clone(),
            SPVError::Misbehaving(_, reason, _) => reason.clone(),
            SPVError::IO(err) => err.to_string(),
            SPVError::Panic(reason) => reason.clone(),
            SPVError::DB(err) => err.to_string(),
        }
    }
}

impl From<std::io::Error> for SPVError {
    fn from(err: std::io::Error) -> SPVError {
        SPVError::IO(err)
    }
}

impl vstd::std_specs::convert::FromSpecImpl<std::io::Error> for SPVError {
    open spec fn obeys_from_spec() -> bool {
        true
    }

    open spec fn from_spec(v: std::io::Error) -> SPVError {
        SPVError::IO(v)
    }
}

impl From<rusqlite::Error> for SPVError {
    fn from(err: rusqlite::Error) -> SPVError {
        SPVError::DB(err)
    }
}

impl vstd::std_specs::convert::FromSpecImpl<rusqlite::Error> for SPVError {
    open spec fn obeys_from_spec() -> bool {
        true
    }

    open spec fn from_spec(v: rusqlite::Error) -> SPVError {
        SPVError::DB(v)
    }
}

/// Relies on std's `io::Error::new`: an error of kind `Other` that carries
/// `message`.
#[verifier::external_body]
fn other_io_error(message: String) -> std::io::Error {
    std::io::Error::new(std::io::ErrorKind::Other, message)
}

impl From<SPVError> for std::io::Error {
    /// The I/O error itself, or an error of kind `Other` with the
    /// description of any other error.
    fn from(err: SPVError) -> std::io::Error {
        match err {
            SPVError::IO(e) => e,
            other => other_io_error(other.description()),
        }
    }
}

impl vstd::std_specs::convert::FromSpecImpl<SPVError> for std::io::Error {
    open spec fn obeys_from_spec() -> bool {
        false
    }

    open spec fn from_spec(v: SPVError) -> std::io::Error {
        vstd::pervasive::arbitrary()
    }
}

} // verus!
