//! Submission of Solana transactions through a pool of RPC endpoints.
//!
//! A transaction that comes in is taken apart, given a priority fee and a mark
//! by which the chain tells its copies, signed once per recent blockhash, and
//! sent to every endpoint, the fastest first, until one copy is confirmed.

pub mod assemble;
pub mod broadcast;
pub mod cache;
pub mod clock;
pub mod compile;
pub mod dedup;
pub mod delivery;
pub mod encoding;
pub mod endpoints;
pub mod instruction;
pub mod keypair;
pub mod latency;
pub mod message;
pub mod pool;
pub mod program;
pub mod rebuild;
pub mod sdk;
pub mod submit;

pub use cache::{BlockhashCache, CachedBlockhash};
pub use dedup::build_de_duplication_instructions;
pub use latency::RpcLatencyTracker;
pub use pool::RpcPool;
pub use program::process_instruction;
pub use submit::TransactionSubmitter;
