//! The configuration surface the server consumes: the server subcommand's
//! options, and the precedence rules that merge them with the config file.

use vstd::prelude::*;

verus! {

/// The server subcommand's options, as the command line carries them.
pub struct ServerSubcommand {
    /// Address and port to bind.
    pub bind: Option<String>,
    /// Start without the explorer pages.
    pub without_explorer: bool,
    /// Start without the API endpoints.
    pub without_api: bool,
    /// Start without the indexer task.
    pub without_indexer: bool,
    /// Seconds between indexer ticks.
    pub indexer_delay: Option<u64>,
}

/// The seconds between indexer ticks: the command line wins over the config
/// file, and 30 stands when neither speaks.
pub fn server_indexer_delay(cli: Option<u64>, file: Option<u64>) -> (r: u64)
    ensures
        r == (match cli {
            Some(d) => d,
            None => match file {
                Some(d) => d,
                None => 30u64,
            },
        }),
{
    match cli {
        Some(d) => d,
        None => match file {
            Some(d) => d,
            None => 30,
        },
    }
}

/// The confirmation lag in blocks: the config file's value, or 3.
pub fn confirmations(file: Option<u64>) -> (r: u64)
    ensures
        r == (match file {
            Some(c) => c,
            None => 3u64,
        }),
{
    match file {
        Some(c) => c,
        None => 3,
    }
}

/// The bind address: the command line wins over the config file.
pub fn server_bind(cli: &Option<String>, file: &Option<String>) -> (r: Option<String>)
    ensures
        match cli {
            Some(b) => r matches Some(x) && x@ == b@,
            None => match file {
                Some(b) => r matches Some(x) && x@ == b@,
                None => r is None,
            },
        },
{
    match cli {
        Some(b) => Some(b.clone()),
        None => match file {
            Some(b) => Some(b.clone()),
            None => None,
        },
    }
}

} // verus!
