//! The command line: what was asked for, and which command that makes.
use vstd::prelude::*;

use crate::collectors::processes::TopProcessSort;

verus! {

#[derive(Debug)]
pub struct Cli {
    pub command: Option<Command>,
    /// `--json` before any subcommand.
    pub json: bool,
}

#[derive(Debug)]
pub enum Command {
    Snapshot(SnapshotArgs),
    Watch(WatchArgs),
    Daemon(DaemonArgs),
    History(HistoryArgs),
    Top(TopArgs),
}

#[derive(Debug)]
pub struct SnapshotArgs {
    pub json: bool,
}

#[derive(Debug)]
pub struct WatchArgs {
    /// Refresh interval in seconds.
    pub interval: u64,
}

#[derive(Debug)]
pub struct DaemonArgs {
    /// Path of a TOML settings file.
    pub config: Option<String>,
}

#[derive(Debug)]
pub struct HistoryArgs {
    /// History window to dump, such as `1h`.
    pub last: String,
    /// History file written by the daemon.
    pub file: String,
    /// Seconds between live samples.
    pub interval: u64,
    /// Most live samples to collect.
    pub samples: usize,
    pub json: bool,
}

#[derive(Debug)]
pub struct TopArgs {
    pub by: TopSortKey,
    /// Number of processes to show.
    pub limit: usize,
}

#[derive(Clone, Copy, Debug, PartialEq, Eq, Structural)]
pub enum TopSortKey {
    Cpu,
    Memory,
}

/// The command that runs: the one given, a snapshot when none is, and a JSON
/// snapshot when `--json` stands before the command or after `snapshot`.
pub open spec fn command_to_run(cli: Cli) -> Command {
    match cli.command {
        None => Command::Snapshot(SnapshotArgs { json: cli.json }),
        Some(Command::Snapshot(args)) => Command::Snapshot(SnapshotArgs { json: args.json || cli.json }),
        Some(command) => command,
    }
}

impl Cli {
    pub fn into_command(self) -> (r: Command)
        ensures
            r == command_to_run(self),
    {
        match self.command {
            None => Command::Snapshot(SnapshotArgs { json: self.json }),
            Some(Command::Snapshot(args)) => Command::Snapshot(
                SnapshotArgs { json: args.json || self.json },
            ),
            Some(command) => command,
        }
    }
}

impl From<TopSortKey> for TopProcessSort {
    fn from(value: TopSortKey) -> (r: TopProcessSort) {
        match value {
            TopSortKey::Cpu => TopProcessSort::Cpu,
            TopSortKey::Memory => TopProcessSort::Memory,
        }
    }
}

impl vstd::std_specs::convert::FromSpecImpl<TopSortKey> for TopProcessSort {
    open spec fn obeys_from_spec() -> bool {
        true
    }

    open spec fn from_spec(value: TopSortKey) -> TopProcessSort {
        match value {
            TopSortKey::Cpu => TopProcessSort::Cpu,
            TopSortKey::Memory => TopProcessSort::Memory,
        }
    }
}

} // verus!
