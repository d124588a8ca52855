//! The built-in guest programs: each module holds one contract's methods
//! and the entry dispatcher its account is run through.

pub mod counter;
pub mod demo;
pub mod fibonacci;
pub mod playground;
pub mod token;
