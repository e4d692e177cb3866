//! Core engine of a WireGuard tunnel manager: configuration parsing and
//! generation, live-status parsing, peer-address allocation, and the
//! decision logic of the tunnel lifecycle operations.

use vstd::prelude::*;

pub mod addr;
pub mod archive;
pub mod config;
pub mod display;
pub mod lifecycle;
pub mod status;
pub mod text;
pub mod tunnels;
pub mod wizard;

pub use display::{Message, format_bytes, truncate_key};
pub use status::{InterfaceInfo, PeerInfo, parse_bytes, parse_wg_output};
pub use tunnels::{Tunnel, check_dependencies, discover_tunnels};

verus! {

/// The failure taxonomy shared by every operation of the library.
#[derive(Debug, Clone)]
pub enum Error {
    /// A source file or tunnel that should exist does not.
    NotFound(String),
    /// A create or import would collide with an existing tunnel.
    AlreadyExists(String),
    /// A required field is empty or malformed.
    Validation(String),
    /// An external command exited with a failure status.
    SubprocessFailure(String),
    /// No free peer address remains in the server's range.
    AllocationExhausted,
    /// A filesystem failure distinct from the cases above.
    Io(String),
}

/// The mathematical shape of an `Error`.
pub enum ErrorV {
    NotFound(Seq<char>),
    AlreadyExists(Seq<char>),
    Validation(Seq<char>),
    SubprocessFailure(Seq<char>),
    AllocationExhausted,
    Io(Seq<char>),
}

impl View for Error {
    type V = ErrorV;

    open spec fn view(&self) -> ErrorV {
        match self {
            Error::NotFound(m) => ErrorV::NotFound(m@),
            Error::AlreadyExists(m) => ErrorV::AlreadyExists(m@),
            Error::Validation(m) => ErrorV::Validation(m@),
            Error::SubprocessFailure(m) => ErrorV::SubprocessFailure(m@),
            Error::AllocationExhausted => ErrorV::AllocationExhausted,
            Error::Io(m) => ErrorV::Io(m@),
        }
    }
}

impl Error {
    /// The human-readable message carried by this error.
    pub open spec fn spec_message(&self) -> Seq<char> {
        match self {
            Error::NotFound(m) => m@,
            Error::AlreadyExists(m) => m@,
            Error::Validation(m) => m@,
            Error::SubprocessFailure(m) => m@,
            Error::AllocationExhausted => "No free addresses remain in range"@,
            Error::Io(m) => m@,
        }
    }

    /// Returns the human-readable message of this error.
    pub fn message(&self) -> (r: String)
        ensures
            r@ == self.spec_message(),
    {
        match self {
            Error::NotFound(m) => m.clone(),
            Error::AlreadyExists(m) => m.clone(),
            Error::Validation(m) => m.clone(),
            Error::SubprocessFailure(m) => m.clone(),
            Error::AllocationExhausted => String::from_str("No free addresses remain in range"),
            Error::Io(m) => m.clone(),
        }
    }
}

} // verus!
