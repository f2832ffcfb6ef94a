pub mod error;
pub mod keys;
pub mod reconstruct;
pub mod transaction;
pub mod loader;
pub mod cli;
pub mod rpc;
pub mod recovery;
