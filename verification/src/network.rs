//! The rules of the sequential network backends: the `tcp://` endpoint
//! syntax, the sequential-only offset discipline, and the length prefix a
//! network source receives first.

use vstd::prelude::*;
use vstd::bytes::{spec_u64_from_le_bytes, u64_from_le_bytes};
use vstd::string::StrSliceExecFns;

use crate::text::{has_prefix, starts_with};

verus! {

/// Why an endpoint was refused.
#[derive(Debug, Clone, Copy)]
pub enum EndpointError {
    /// The endpoint does not start with `tcp://`.
    MissingTcpScheme,
}

/// The address part of a `tcp://host:port` endpoint: what follows the
/// `tcp://` prefix, which is required.
pub fn parse_tcp_endpoint(endpoint: &str) -> (r: Result<&str, EndpointError>)
    ensures
        starts_with(endpoint@, "tcp://"@) ==> (r matches Ok(a) && a@ == endpoint@.skip(6)),
        !starts_with(endpoint@, "tcp://"@) ==> r matches Err(EndpointError::MissingTcpScheme),
{
    if has_prefix(endpoint, "tcp://") {
        proof {
            reveal_strlit("tcp://");
        }
        let n = endpoint.unicode_len();
        Ok(endpoint.substring_char(6, n))
    } else {
        Err(EndpointError::MissingTcpScheme)
    }
}

/// A request at an offset other than the stream's current position.
#[derive(Debug, Clone, Copy)]
pub struct NonSequentialAccess {
    pub position: u64,
    pub requested: u64,
}

/// The position of a stream that can only be read or written in order.
#[derive(Debug, Clone, Copy)]
pub struct StreamCursor {
    position: u64,
}

impl StreamCursor {
    pub closed spec fn pos(&self) -> u64 {
        self.position
    }

    /// A stream at its beginning.
    pub fn new() -> (r: StreamCursor)
        ensures
            r.pos() == 0,
    {
        StreamCursor { position: 0 }
    }

    pub fn position(&self) -> (r: u64)
        ensures
            r == self.pos(),
    {
        self.position
    }

    /// Admits an access at `offset` only at the current position.
    pub fn check(&self, offset: u64) -> (r: Result<(), NonSequentialAccess>)
        ensures
            r is Ok <==> offset == self.pos(),
            r matches Err(e) ==> e.position == self.pos() && e.requested == offset,
    {
        if offset != self.position {
            Err(NonSequentialAccess { position: self.position, requested: offset })
        } else {
            Ok(())
        }
    }

    /// Moves past `n` bytes transferred.
    pub fn advance(&mut self, n: u64)
        requires
            old(self).pos() + n <= u64::MAX,
        ensures
            final(self).pos() == old(self).pos() + n,
    {
        self.position = self.position + n;
    }
}

/// The source length that a network source receives first: eight bytes,
/// little-endian.
pub fn decode_length_prefix(bytes: &[u8]) -> (r: u64)
    requires
        bytes@.len() == 8,
    ensures
        r == spec_u64_from_le_bytes(bytes@),
{
    u64_from_le_bytes(bytes)
}

} // verus!
