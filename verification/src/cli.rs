//! The command line.

use vstd::prelude::*;
use vstd::string::*;

use crate::text::text_of;
use crate::variables::{find_variable, lemma_variable_is_first, variable};

verus! {

/// Where the configuration is read from unless the command line says otherwise.
pub const DEFAULT_CONFIG: &'static str = "/etc/mapecd/config.toml";

/// What is logged unless the command line or the environment says otherwise.
pub const DEFAULT_LOG_LEVEL: &'static str = "info";

/// The variable that says what is logged where the command line does not.
pub const VAR_LOG_LEVEL: &'static str = "MAPECD_LOG_LEVEL";

/// A command.
#[derive(Clone, Copy, Debug, PartialEq, Eq, Structural)]
pub enum Command {
    /// Runs the daemon.
    Start,
    /// Shows the state of the daemon.
    Status,
    /// Stops the daemon.
    Stop,
}

/// A command line.
#[derive(Clone, Debug)]
pub struct Cli {
    /// Path of the configuration.
    pub config: String,
    /// Log level: `trace`, `debug`, `info`, `warn` or `error`.
    pub log_level: String,
    /// The command, if one was given.
    pub command: Option<Command>,
}

/// What a command line asks for.
#[derive(Clone, Copy, Debug, PartialEq, Eq, Structural)]
pub enum Job {
    /// The daemon is run.
    Run,
    /// It is shown whether the daemon runs.
    Show,
    /// The daemon is asked to end.
    End,
}

/// What is logged: what the command line says, else what the environment says, else the default.
pub open spec fn log_level_of(given: Option<Seq<char>>, vars: Seq<(String, String)>) -> Seq<char> {
    match (given, variable(vars, VAR_LOG_LEVEL@)) {
        (Some(level), _) => level,
        (None, Some(level)) => level,
        (None, None) => DEFAULT_LOG_LEVEL@,
    }
}

/// What is logged: what the command line says, else what the environment says, else the default.
pub fn chosen_log_level(given: Option<String>, vars: &Vec<(String, String)>) -> (r: String)
    ensures
        r@ == log_level_of(text_of(given), vars@),
{
    match given {
        Some(level) => level,
        None => match find_variable(vars, VAR_LOG_LEVEL) {
            Some(level) => level,
            None => String::from_str(DEFAULT_LOG_LEVEL),
        },
    }
}

impl Cli {
    /// What is to be done: without a command, the daemon is run.
    pub fn job(&self) -> (r: Job)
        ensures
            r == (match self.command {
                None => Job::Run,
                Some(Command::Start) => Job::Run,
                Some(Command::Status) => Job::Show,
                Some(Command::Stop) => Job::End,
            }),
    {
        match self.command {
            None => Job::Run,
            Some(Command::Start) => Job::Run,
            Some(Command::Status) => Job::Show,
            Some(Command::Stop) => Job::End,
        }
    }
}

/// What is logged: a level on the command line counts before `MAPECD_LOG_LEVEL`, and without both
/// it is `info`. The configuration is read from `/etc/mapecd/config.toml` by default.
pub proof fn lemma_which_level_counts(level: Seq<char>, vars: Seq<(String, String)>, i: int)
    requires
        0 <= i <= vars.len(),
        forall|j: int| 0 <= j < i ==> (#[trigger] vars[j]).0@ != "MAPECD_LOG_LEVEL"@,
    ensures
        log_level_of(Some(level), vars) == level,
        i < vars.len() && vars[i].0@ == "MAPECD_LOG_LEVEL"@ ==> log_level_of(None, vars)
            == vars[i].1@,
        i == vars.len() ==> log_level_of(None, vars) == "info"@,
        DEFAULT_CONFIG@ == "/etc/mapecd/config.toml"@,
{
    lemma_variable_is_first(vars, "MAPECD_LOG_LEVEL"@, i);
}

} // verus!
