//! Client side of a small real-time movement protocol: directional input is
//! turned into one-byte movement codes, grouped into fixed-size batches for
//! the peer, and mirrored in the local position; inbound position records
//! are framed out of the byte stream the peer sends back.
pub mod codec;

pub mod input;
pub mod player;
pub mod records;
