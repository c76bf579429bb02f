//! A minimal single-node ledger core: a SHA-256 hash engine with a lossless
//! hex codec, a Merkle-tree reduction over an ordered transaction list, a
//! bounded proof-of-work nonce search, and the sizing rule for the worker
//! pool that executes inbound jobs.

mod block;
mod codec;
mod errors;
mod hashing;
mod merkle;
mod pool;
mod pow;
mod randid;
mod text;

pub use block::Block;
pub use codec::HashtoString;
pub use codec::StringtoHash;
pub use codec::decode_hex;
pub use codec::encode_hex;
pub use errors::SizeError;
pub use hashing::calculate_hash;
pub use merkle::MerkleTree;
pub use pool::validate_pool_size;
pub use pow::Pow;
pub use pow::PowOutcome;
pub use randid::generate_rand_string;
pub use text::arr_to_string;
pub use text::i32_to_string;
pub use text::join_with_commas;
pub use text::string_to_arr;
pub use text::u64_to_string;
