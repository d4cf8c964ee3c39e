use vstd::prelude::*;

verus! {

/// Largest number of client slots a server may be started with.
pub const MAX_CLIENTS: usize = 64;

/// Largest payload, in bytes, that one application packet may carry.
pub const MAX_PACKET_SIZE: usize = 1200;

/// Length, in bytes, of the private key shared with the token issuer.
pub const PRIVATE_KEY_BYTES: usize = 32;

} // verus!
