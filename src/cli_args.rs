//! The commands of the command-line program, with paths as text.

use vstd::prelude::*;

verus! {

/// A command and its arguments.
#[derive(Debug)]
pub enum Command {
    /// Follow, on the destination network, the bridged accounts that are ready.
    Sync { config: String, verbose: u8 },
    /// Write the import file of the accounts that are ready.
    Csv { config: String, output: Option<String>, verbose: u8 },
    /// Clear the stored credentials and the account settings.
    Forget { config: String, verbose: u8 },
    /// Print the default configuration path.
    Config { verbose: u8 },
}

impl Command {
    /// How many times the verbosity flag was given.
    pub open spec fn verbosity(&self) -> u8 {
        match self {
            Command::Sync { verbose, .. } => *verbose,
            Command::Csv { verbose, .. } => *verbose,
            Command::Forget { verbose, .. } => *verbose,
            Command::Config { verbose } => *verbose,
        }
    }

    /// How many times the verbosity flag was given.
    pub fn verbose(&self) -> (r: u8)
        ensures
            r == self.verbosity(),
    {
        match self {
            Command::Sync { verbose, .. } => *verbose,
            Command::Csv { verbose, .. } => *verbose,
            Command::Forget { verbose, .. } => *verbose,
            Command::Config { verbose } => *verbose,
        }
    }
}

/// The parsed command line.
#[derive(Debug)]
pub struct CliArgs {
    pub command: Command,
}

/// The configuration file used where no location for it could be found.
pub const DEFAULT_CONFIG_FILE: &'static str = "bridgy_followers.toml";

/// The configuration path to use by default: the located one, if the
/// platform gave one, else a file in the working directory.
pub fn default_config_path(located: Option<String>) -> (r: String)
    ensures
        match located {
            Some(path) => r@ == path@,
            None => r@ == DEFAULT_CONFIG_FILE@,
        },
{
    match located {
        Some(path) => path,
        None => String::from_str(DEFAULT_CONFIG_FILE),
    }
}

/// How log lines are laid out.
#[derive(Debug, Clone, Copy, PartialEq, Eq, Structural)]
pub enum LogFormat {
    /// Only the message, dimmed.
    MessagesOnly,
    /// Every field, without timestamps.
    NoTimestamps,
    /// Every field, with timestamps.
    Full,
}

/// What to log and how.
#[derive(Debug)]
pub struct LogSetup {
    /// A filter in the tracing directive syntax.
    pub filter: String,
    pub format: LogFormat,
}

/// The log filter for a verbosity level; none at level zero.
pub open spec fn log_filter(verbose: u8) -> Option<Seq<char>> {
    if verbose == 0 {
        None
    } else if verbose == 1 {
        Some("bridgy_followers=info"@)
    } else if verbose == 2 {
        Some("bridgy_followers=debug,error"@)
    } else if verbose == 3 {
        Some("bridgy_followers=debug,info"@)
    } else if verbose == 4 {
        Some("bridgy_followers=trace,debug"@)
    } else {
        Some("trace"@)
    }
}

/// The layout for a verbosity level.
pub open spec fn log_format(verbose: u8) -> LogFormat {
    if verbose == 1 {
        LogFormat::MessagesOnly
    } else if verbose == 2 {
        LogFormat::NoTimestamps
    } else {
        LogFormat::Full
    }
}

/// What to log for a verbosity level: nothing at zero; more, and with more
/// detail, at each level up to five.
pub fn log_setup(verbose: u8) -> (r: Option<LogSetup>)
    ensures
        match r {
            None => log_filter(verbose) is None,
            Some(setup) => log_filter(verbose) == Some(setup.filter@) && setup.format == log_format(
                verbose,
            ),
        },
{
    let filter = if verbose == 0 {
        return None;
    } else if verbose == 1 {
        String::from_str("bridgy_followers=info")
    } else if verbose == 2 {
        String::from_str("bridgy_followers=debug,error")
    } else if verbose == 3 {
        String::from_str("bridgy_followers=debug,info")
    } else if verbose == 4 {
        String::from_str("bridgy_followers=trace,debug")
    } else {
        String::from_str("trace")
    };
    let format = if verbose == 1 {
        LogFormat::MessagesOnly
    } else if verbose == 2 {
        LogFormat::NoTimestamps
    } else {
        LogFormat::Full
    };
    Some(LogSetup { filter, format })
}

} // verus!
