//! The fixed values a run is configured with, passed explicitly so
//! that every component can be exercised in isolation.

use vstd::prelude::*;

verus! {

/// Configuration of one run of the launcher.
pub struct Config {
    /// Name of the history file in the working directory.
    pub history_file: String,
    /// Filename suffix that marks an environment-definition file.
    pub env_extension: String,
    /// The command interpreter used for shell-wrapped execution.
    pub shell_program: String,
    /// The interpreter flag that introduces the wrapped command line.
    pub shell_flag: String,
    /// Program names that always run shell-wrapped: shell built-ins
    /// with no standalone executable.
    pub exception_commands: Vec<String>,
}

/// The stock configuration the launcher ships with.
pub fn standard_config() -> (c: Config)
    ensures
        c.history_file@ == ".comhistory"@,
        c.env_extension@ == "env"@,
        c.shell_program@ == "cmd"@,
        c.shell_flag@ == "/C"@,
        c.exception_commands.deep_view() == seq!["echo"@],
{
    let mut exception_commands: Vec<String> = Vec::new();
    exception_commands.push(String::from_str("echo"));
    proof {
        assert(exception_commands.deep_view() =~= seq!["echo"@]);
    }
    Config {
        history_file: String::from_str(".comhistory"),
        env_extension: String::from_str("env"),
        shell_program: String::from_str("cmd"),
        shell_flag: String::from_str("/C"),
        exception_commands,
    }
}

} // verus!
