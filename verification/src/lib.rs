//! A content-addressed block store with longest-chain fork choice.
//!
//! Blocks are identified by the SHA-256 digest of their canonical byte
//! encoding. The store admits blocks whose parent it already knows, records
//! their height above the genesis block, and keeps the tip of the longest
//! chain, preferring the block that arrived first when heights are equal.

pub mod hash;
pub mod signature;
pub mod transaction;
pub mod block;
pub mod chain;
pub mod blockchain;
