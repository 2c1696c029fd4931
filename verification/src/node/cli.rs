//! The command line.
use vstd::prelude::*;
use vstd::string::*;

verus! {

/// The command line.
#[derive(Debug, PartialEq, Eq)]
pub struct Cli {
    /// What to do.
    pub command: Command,
}

/// What to do.
#[derive(Debug, PartialEq, Eq)]
pub enum Command {
    /// Run the daemon.
    Run {
        /// The configuration file.
        config: String,
        /// The interfaces to use in place of the configured ones.
        nics: Vec<String>,
        /// How much to log.
        log_level: String,
        /// The socket on which to answer.
        status_socket: Option<String>,
    },
    /// Ask a running daemon how it is.
    Status {
        /// Its socket.
        socket: String,
    },
    /// Have a running daemon register a hostname.
    AndnaRegister {
        /// The hostname.
        hostname: String,
        /// The daemon's socket.
        socket: String,
    },
    /// Have a running daemon resolve a hostname.
    AndnaResolve {
        /// The hostname.
        hostname: String,
        /// The daemon's socket.
        socket: String,
    },
}

/// The socket on which a daemon answers, where none is named.
pub fn status_socket_or_default(given: Option<String>) -> (r: String)
    ensures
        r@ == match given {
            Some(path) => path@,
            None => "/tmp/ntkd.sock"@,
        },
{
    match given {
        Some(path) => path,
        None => String::from_str("/tmp/ntkd.sock"),
    }
}

} // verus!
