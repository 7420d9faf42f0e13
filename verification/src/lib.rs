//! Wire layer of the Stratum V2 mining protocol: bounded-length binary
//! message codec, capability and version negotiation for connection setup,
//! and an owning mirror representation of each message for callers that
//! cannot hold a borrowed decode buffer.

pub mod bounded;
pub mod codec;
pub mod request_transaction_data;
pub mod rpc;
pub mod setup_connection;
pub mod submit_shares;
pub mod submit_solution;

