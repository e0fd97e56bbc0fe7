pub mod hashing;
pub mod encoding;
pub mod transaction;
pub mod keys;
pub mod wallets;
pub mod utxo;
pub mod block;
pub mod spend;
pub mod chain;
pub mod server;
pub mod cli;
pub mod scan;
pub mod codec;
