//! The command line: which mode the program runs in and with which database
//! and management port.
use vstd::prelude::*;

verus! {

/// The parsed command line.
pub struct Cli {
    pub command: Option<Command>,
    /// Path to the SQLite database file.
    pub db: String,
    /// Management port of the dashboard and API.
    pub port: u16,
}

/// The subcommands.
#[derive(Debug, Clone, Copy, PartialEq, Eq, Structural)]
pub enum Command {
    /// Start the mock server as a background daemon.
    Start,
    /// Stop the background mock server.
    Stop,
    /// Restart the background mock server (stop, then start).
    Restart,
    /// Show the status of the background mock server.
    Status,
    /// Run the mock server in the foreground (ports and dashboard).
    Serve,
}

/// The database path used when none is given.
pub const DEFAULT_DB: &'static str = "apimock.db";

/// The management port used when none is given.
pub const DEFAULT_PORT: u16 = 9999;

impl Cli {
    /// The command line with no arguments: the interface, on the default
    /// database and port.
    pub fn defaults() -> (r: Cli)
        ensures
            r.command is None,
            r.db@ == DEFAULT_DB@,
            r.port == DEFAULT_PORT,
    {
        Cli { command: None, db: DEFAULT_DB.to_owned(), port: DEFAULT_PORT }
    }
}

/// How the program runs for a command: a daemon operation, the foreground
/// server, or (with no command) the terminal interface.
#[derive(Debug, Clone, Copy, PartialEq, Eq, Structural)]
pub enum RunMode {
    Daemon(Command),
    Foreground,
    Interface,
}

/// The mode for a command: `serve` runs in the foreground, no command runs
/// the interface, the others operate on the daemon and exit.
pub open spec fn mode_of(command: Option<Command>) -> RunMode {
    match command {
        Some(Command::Serve) => RunMode::Foreground,
        Some(c) => RunMode::Daemon(c),
        None => RunMode::Interface,
    }
}

/// Chooses how the program runs (see `mode_of`).
pub fn run_mode(command: Option<Command>) -> (r: RunMode)
    ensures
        r == mode_of(command),
{
    match command {
        Some(Command::Serve) => RunMode::Foreground,
        Some(c) => RunMode::Daemon(c),
        None => RunMode::Interface,
    }
}

/// The arguments a daemon is started with: it serves the same database on
/// the same management port.
pub fn serve_args(db: &str, port: u16) -> (r: Vec<String>)
    ensures
        r@.len() == 5,
        r@[0]@ == "serve"@,
        r@[1]@ == "--db"@,
        r@[2]@ == db@,
        r@[3]@ == "--port"@,
        r@[4]@ == crate::text::decimal(port as nat),
{
    vec![
        "serve".to_owned(),
        "--db".to_owned(),
        db.to_owned(),
        "--port".to_owned(),
        crate::text::u64_string(port as u64),
    ]
}

} // verus!
