//! The command line of the node: run a server, talk to one as a client, or
//! stop the running nodes.

use vstd::prelude::*;

verus! {

/// The command line.
pub struct Cli {
    pub commands: Commands,
}

/// What the node is asked to do.
pub enum Commands {
    Server(ServerCommands),
    Client(ClientCommands),
    Stop,
}

/// Run a server with the configuration file at `config`.
pub struct ServerCommands {
    pub config: String,
}

/// Send `command`, about `lock` where it needs one, to the server at
/// `server`.
pub struct ClientCommands {
    pub server: String,
    pub command: ClientArgs,
    pub lock: Option<String>,
}

/// The requests a client can send.
#[derive(PartialEq, Eq, Structural, Copy, Clone, Debug)]
pub enum ClientArgs {
    Lock,
    Unlock,
    Peers,
    State,
    Create,
    Remove,
    List,
    Watch,
}

/// Why a client command was refused.
#[derive(PartialEq, Eq, Structural, Copy, Clone, Debug)]
pub enum CliError {
    NoLockSpecified,
}

impl CliError {
    /// A human-readable description of the error.
    pub fn message(&self) -> (r: &'static str) {
        match self {
            CliError::NoLockSpecified => "No lock specified",
        }
    }
}

/// The lock that a client command names; an error when it names none.
pub fn get_lock_or_fail(config: &ClientCommands) -> (r: Result<String, CliError>)
    ensures
        config.lock matches Some(l) ==> r == Ok::<String, CliError>(l),
        config.lock is None ==> r == Err::<String, CliError>(CliError::NoLockSpecified),
{
    match &config.lock {
        Some(lock) => Ok(lock.clone()),
        None => Err(CliError::NoLockSpecified),
    }
}

} // verus!
