//! The rules of a proof-of-work mining pool: difficulty arithmetic, share
//! judging, work accounting, reward distribution, peer scoring and the
//! decisions that drive the pool's conversations with a node.

// Numbers and text.
pub mod bytes;
pub mod difficulty;
pub mod magnitude;
pub mod text;

// The chain.
pub mod chain;
pub mod snapcoin;

// Shares and payouts.
pub mod handle_block;
pub mod handle_share;
pub mod job_handler;
pub mod share_store;
pub mod submission;

// Miners and the node.
pub mod config;
pub mod events;
pub mod ip_states;
pub mod mempool;
pub mod network_stats;
pub mod node_metrics;
pub mod requests;
pub mod session;

// Lists of keys and values.
pub mod table;
