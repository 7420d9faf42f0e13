//! Plain value types shared with the RPC-facing roles: a 32-byte hash and the
//! block hash built on it. Callers that need serialized forms keep their own
//! mirror types and convert.

use vstd::prelude::*;

verus! {

/// A 32-byte hash value.
#[derive(Debug, Clone, PartialEq, Eq, Hash)]
pub struct Hash(pub [u8; 32]);

/// The hash of a block, carried as an opaque 32-byte value.
#[derive(Clone, PartialEq, Eq, Hash)]
pub struct BlockHash(pub Hash);

} // verus!
