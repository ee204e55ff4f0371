use vstd::prelude::*;

verus! {

/// The node's command line.
pub struct Args {
    /// Path to the toml configuration file.
    pub config: String,
    /// Use the mock consensus backend.
    pub with_mock_consensus: bool,
    /// Level of verbosity, up to 3.
    pub verbose: u8,
    /// Print code locations in console logs.
    pub log_location: bool,
    pub cmd: Command,
}

pub enum Command {
    /// Run the full node.
    Run,
    /// Key management.
    Keys(KeySubCmd),
    /// Print the loaded configuration, or the default one.
    PrintConfig { default: bool },
    /// Developer commands.
    Dev(DevSubCmd),
}

pub enum DevSubCmd {
    /// Initialize every service without starting the node.
    InitOnly,
    /// Show the order in which services start.
    ShowOrder,
    /// Dump the dependency graph of services.
    DepGraph,
    /// Store the given files in the blockstore.
    Store { input: Vec<String> },
}

pub enum KeySubCmd {
    /// Print the node's public keys.
    Show,
    /// Generate new private keys; fails where keys exist.
    Generate,
}

} // verus!
