//! A verified model of a smart-contract execution runtime: wire primitives
//! with a canonical byte codec, hash-committed storage, a gas-accounted
//! execution-context tree, host-side syscall handlers, the guest-side call
//! environment, and a recursive driver that runs built-in guest programs.

pub mod codec;
pub mod contracts;
pub mod context;
pub mod env;
pub mod hashing;
pub mod outcome;
pub mod primitives;
pub mod runtime;
pub mod sorted_map;
pub mod storage;
pub mod syscalls;
pub mod transaction;
