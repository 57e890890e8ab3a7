use vstd::prelude::*;

verus! {

broadcast use vstd::string::group_string_axioms;

/// Settings read from `config.toml`; each field falls back to its default.
#[derive(Debug, Clone)]
pub struct Config {
    pub ssh_command: String,
    pub max_log_lines: usize,
    pub discovery_timeout: u64,
    pub extra_paths: Vec<String>,
}

/// The ssh program used when none is configured.
pub fn default_ssh_command() -> (r: String)
    ensures
        r@ == "ssh"@,
{
    String::from_str("ssh")
}

/// How many lines a log viewer keeps when nothing is configured.
pub fn default_max_log_lines() -> (r: usize)
    ensures
        r == 10_000,
{
    10_000
}

/// Seconds a discovery command may run when nothing is configured.
pub fn default_discovery_timeout() -> (r: u64)
    ensures
        r == 10,
{
    10
}

impl Default for Config {
    fn default() -> (r: Self)
        ensures
            r.ssh_command@ == "ssh"@,
            r.max_log_lines == 10_000,
            r.discovery_timeout == 10,
            r.extra_paths@.len() == 0,
    {
        Config {
            ssh_command: default_ssh_command(),
            max_log_lines: default_max_log_lines(),
            discovery_timeout: default_discovery_timeout(),
            extra_paths: Vec::new(),
        }
    }
}

} // verus!
