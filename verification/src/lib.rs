//! A peer-to-peer file transfer library: naming, framing, encryption and
//! protocol decisions for sharing files over a local network.

pub mod server;
pub mod text;
pub mod utils;
pub mod crypto;
pub mod stream;
pub mod discovery;
pub mod client;
pub mod tls;
pub mod cli;
