//! A small Raft node and its storage/network plumbing, with the decisions
//! separated from the I/O: the library computes, the caller performs.
pub mod raft;
pub mod storage;
