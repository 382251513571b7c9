//! A placeholder transport for I2P that accepts no address: it neither listens
//! nor dials, and has no listener to remove.

use vstd::prelude::*;

verus! {

/// Why the transport refused to act on an address.
#[derive(Debug, PartialEq, Eq)]
pub enum TransportError {
    /// The transport does not support the encoded address it was given.
    MultiaddrNotSupported(Vec<u8>),
}

/// A transport that rejects every address.
#[derive(Debug)]
pub struct I2pTransport;

impl I2pTransport {
    /// A new transport.
    pub fn new() -> (out: I2pTransport) {
        I2pTransport
    }

    /// Refuses to listen on `addr`, which it does not support.
    pub fn listen_on(&mut self, addr: Vec<u8>) -> (out: Result<(), TransportError>)
        ensures
            out == Err::<(), TransportError>(TransportError::MultiaddrNotSupported(addr)),
    {
        Err(TransportError::MultiaddrNotSupported(addr))
    }

    /// Has no listener `id` to remove.
    pub fn remove_listener(&mut self, id: u64) -> (out: bool)
        ensures
            !out,
    {
        false
    }

    /// Refuses to dial `addr`, which it does not support.
    pub fn dial(&mut self, addr: Vec<u8>) -> (out: Result<(), TransportError>)
        ensures
            out == Err::<(), TransportError>(TransportError::MultiaddrNotSupported(addr)),
    {
        Err(TransportError::MultiaddrNotSupported(addr))
    }
}

} // verus!
