use vstd::prelude::*;
use crate::shared::LibError;

verus! {

pub const NO_ERR: i32 = -1;
pub const TYPE_ERR: i32 = 1;
pub const ERROR: i32 = 0x100;
pub const IO_ERROR: i32 = 0x200;

/// Relies on `std::io::Error::raw_os_error`: the operating system's error code
/// when the error came from one.
#[verifier::external_body]
fn os_error_code(e: &std::io::Error) -> (r: Option<i32>)
{
    e.raw_os_error()
}

/// The error number of an error code, as handed across a foreign interface.
pub open spec fn errno_of(error: &LibError) -> i32 {
    match error {
        LibError::Io(_) => IO_ERROR,
        LibError::Huffman(_) => 0x101,
        LibError::Hpack(_) => 0x102,
        LibError::NotConnected => 0x102,
        LibError::ConnectionClosed => 0x103,
        LibError::StreamClosed => 0x104,
        LibError::HeadersSent => 0x105,
        LibError::Invalid => 0x106,
        LibError::InvalidFrame => 0x107,
        LibError::InvalidUpgrade => 0x108,
        LibError::InvalidStream => 0x109,
        LibError::InvalidString => 0x110,
        LibError::NotAccepted => 0x111,
        LibError::ResetStream => 0x112,
        LibError::Goaway => 0x113,
        LibError::ProtocolError => 0x114,
    }
}

/// The error number of `error`; for an I/O error, the system's code (zero when
/// there is none) with `IO_ERROR` set.
pub fn errno_liberr(error: &LibError) -> (r: i32)
    ensures
        !(error is Io) ==> r == errno_of(error),
        error is Io ==> exists|c: i32| r == c | IO_ERROR,
{
    match error {
        LibError::Io(io) => {
            let c = match os_error_code(io) {
                Some(c) => c,
                None => 0,
            };
            c | IO_ERROR
        },
        LibError::Huffman(_) => 0x101,
        LibError::Hpack(_) => 0x102,
        LibError::NotConnected => 0x102,
        LibError::ConnectionClosed => 0x103,
        LibError::StreamClosed => 0x104,
        LibError::HeadersSent => 0x105,
        LibError::Invalid => 0x106,
        LibError::InvalidFrame => 0x107,
        LibError::InvalidUpgrade => 0x108,
        LibError::InvalidStream => 0x109,
        LibError::InvalidString => 0x110,
        LibError::NotAccepted => 0x111,
        LibError::ResetStream => 0x112,
        LibError::Goaway => 0x113,
        LibError::ProtocolError => 0x114,
    }
}

/// Error numbers as handed across a foreign interface.
pub trait Errno {
    fn get_errno(&self) -> i32;
}

impl Errno for LibError {
    fn get_errno(&self) -> i32 {
        errno_liberr(self)
    }
}

} // verus!
