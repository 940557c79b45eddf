//! Decoding and tallying of block-finality votes observed on a node.
//!
//! - `codec`: the little-endian, compact-length-prefixed wire format.
//! - `session_keys`, `justification`: the records decoded from it.
//! - `hashing`, `address`: storage keys, hex text and checksummed addresses.
//! - `validators`, `tally`, `round_state`: who votes, who has voted, and who
//!   is still missing in the round in progress.

pub mod primitives;
pub mod codec;
pub mod session_keys;
pub mod justification;
pub mod hashing;
pub mod address;
pub mod validators;
pub mod tally;
pub mod round_state;
