//! Persisted tool configuration and its resolution rules.  Reading and
//! writing the configuration file stays with the caller.

use vstd::prelude::*;

verus! {

/// The tool's persisted configuration.
#[derive(Debug, Clone)]
pub struct Config {
    /// Whether to show progress bars.
    pub show_progress: Option<bool>,
    /// Optional custom directory to recursively load hashtable files from.
    pub hashtable_dir: Option<String>,
}

impl Config {
    /// A command-line value wins; otherwise the configured value; otherwise
    /// progress is shown.
    pub fn resolve_show_progress(&self, cli_progress: Option<bool>) -> (r: bool)
        ensures
            r == match cli_progress {
                Some(v) => v,
                None => match self.show_progress {
                    Some(v) => v,
                    None => true,
                },
            },
    {
        match cli_progress {
            Some(v) => v,
            None => match self.show_progress {
                Some(v) => v,
                None => true,
            },
        }
    }
}

impl Default for Config {
    /// The default configuration: nothing decided yet.
    fn default() -> (r: Self)
        ensures
            r.show_progress is None,
            r.hashtable_dir is None,
    {
        Config { show_progress: None, hashtable_dir: None }
    }
}

} // verus!
