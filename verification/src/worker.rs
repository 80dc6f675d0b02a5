//! Description of the worker entry point: the subcommand under which the
//! expansion engine runs and what it needs from its surroundings. The
//! surrounding layer reads this descriptor, loads the configuration, and
//! drives the engine loop.

use vstd::prelude::*;

verus! {

/// What a runnable subcommand of the surrounding program declares.
pub struct CliModule {
    /// The module needs the application paths resolved before it runs.
    pub requires_paths: bool,
    /// The module needs the configuration loaded before it runs.
    pub requires_config: bool,
    /// The module wants logging enabled.
    pub enable_logs: bool,
    /// The subcommand name under which the module is invoked.
    pub subcommand: String,
}

impl Default for CliModule {
    /// A descriptor that asks for nothing: no paths, no configuration,
    /// no logs, and an empty subcommand name.
    fn default() -> (d: CliModule)
        ensures
            !d.requires_paths,
            !d.requires_config,
            !d.enable_logs,
            d.subcommand@ == Seq::<char>::empty(),
    {
        CliModule {
            requires_paths: false,
            requires_config: false,
            enable_logs: false,
            subcommand: String::new(),
        }
    }
}

/// The worker module's descriptor: it runs under the subcommand
/// "worker", needs paths and configuration resolved, and logs.
pub fn new() -> (m: CliModule)
    ensures
        m.requires_paths,
        m.requires_config,
        m.enable_logs,
        m.subcommand@ == "worker"@,
{
    CliModule {
        requires_paths: true,
        requires_config: true,
        enable_logs: true,
        subcommand: String::from_str("worker"),
    }
}

} // verus!
