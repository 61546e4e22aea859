//! The command line: what a user asks the tool to do.  Parsing happens
//! around the library; these are the values it produces.

use vstd::prelude::*;

verus! {

/// The port a session is hosted on unless another is given.
pub const DEFAULT_PORT: u16 = 1844;

/// The lowest port a session may be hosted on.
pub const MIN_PORT: u16 = 1024;

/// A parsed command line.
#[derive(Debug, PartialEq, Eq)]
pub struct Cli {
    pub command: Commands,
}

/// The three things the tool does.
#[derive(Debug, PartialEq, Eq)]
#[allow(inconsistent_fields)]
pub enum Commands {
    /// Host a session and send a file to a joining peer.
    Send { file_path: String, port: u16, encrypt: bool, no_link_token: bool },
    /// Host a session and wait to receive files from a joining peer.
    Receive { port: u16, max_size: Option<usize>, encrypt: bool, no_link_token: bool },
    /// Join a session hosted by another peer, with a file to upload when
    /// the host receives.
    Join { file_path: Option<String> },
}

/// Whether a session may be hosted on `port`.
pub fn port_allowed(port: u16) -> (ok: bool)
    ensures
        ok == (port >= 1024),
{
    port >= MIN_PORT
}

impl Commands {
    /// The port a hosting command listens on; none for `Join`.
    pub fn host_port(&self) -> (p: Option<u16>)
        ensures
            p == match self {
                Commands::Send { port, .. } => Some(*port),
                Commands::Receive { port, .. } => Some(*port),
                Commands::Join { .. } => None::<u16>,
            },
    {
        match self {
            Commands::Send { port, .. } => Some(*port),
            Commands::Receive { port, .. } => Some(*port),
            Commands::Join { .. } => None,
        }
    }

    /// Whether a hosting command asks for links without a token.
    pub fn links_without_token(&self) -> (b: bool)
        ensures
            b == match self {
                Commands::Send { no_link_token, .. } => *no_link_token,
                Commands::Receive { no_link_token, .. } => *no_link_token,
                Commands::Join { .. } => false,
            },
    {
        match self {
            Commands::Send { no_link_token, .. } => *no_link_token,
            Commands::Receive { no_link_token, .. } => *no_link_token,
            Commands::Join { .. } => false,
        }
    }
}

} // verus!
