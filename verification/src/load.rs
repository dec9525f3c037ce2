//! Reading the configuration at start-up: what to do with each state of the main file
//! and of the rolling backup.

use vstd::prelude::*;
use crate::model::{Config, sanitized_theme, sanitized_close_action, spec_default_theme, spec_default_close_action};

verus! {

/// What reading `config.json` gave.
#[derive(Clone, Debug)]
pub enum MainFile {
    /// There is no such file.
    Missing,
    /// The file exists but could not be read.
    Unreadable,
    /// The file was read but does not parse as a configuration.
    Corrupt,
    /// The file parsed.
    Parsed(Config),
}

/// What start-up does after reading the configuration.
#[derive(Clone, Debug)]
pub struct LoadDecision {
    /// The configuration to run with.
    pub config: Config,
    /// Whether the damaged main file is renamed aside.
    pub set_aside: bool,
    /// Whether `config` is saved back as the main file.
    pub write_back: bool,
    /// Whether the outcome is logged as an error.
    pub log_error: bool,
}

/// `r` is `c` with its settings sanitized.
pub open spec fn sanitized_from(r: Config, c: Config) -> bool {
    &&& r.version == c.version
    &&& r.envs == c.envs
    &&& r.groups == c.groups
    &&& r.tools == c.tools
    &&& r.settings.theme@ == sanitized_theme(c.settings.theme@)
    &&& r.settings.close_action@ == sanitized_close_action(c.settings.close_action@)
}

/// `r` is the default configuration.
pub open spec fn is_default_config(r: Config) -> bool {
    &&& r.version == 1
    &&& r.settings.theme@ == spec_default_theme()
    &&& r.settings.close_action@ == spec_default_close_action()
    &&& r.envs@.len() == 0
    &&& r.groups@.len() == 0
    &&& r.tools@.len() == 0
}

/// The start-up decision for each state of the main file and of the backup: a parsed
/// file is used with its settings sanitized; a missing one gives the default quietly, an
/// unreadable one the default with an error logged; a corrupt one is set aside and
/// replaced by the backup (sanitized, saved back) when the backup parses, else by the
/// default, with an error logged either way.
pub open spec fn load_settled(main: MainFile, backup: Option<Config>, r: LoadDecision) -> bool {
    match main {
        MainFile::Parsed(c) => sanitized_from(r.config, c) && !r.set_aside && !r.write_back
            && !r.log_error,
        MainFile::Missing => is_default_config(r.config) && !r.set_aside && !r.write_back
            && !r.log_error,
        MainFile::Unreadable => is_default_config(r.config) && !r.set_aside && !r.write_back
            && r.log_error,
        MainFile::Corrupt => match backup {
            Some(b) => sanitized_from(r.config, b) && r.set_aside && r.write_back && r.log_error,
            None => is_default_config(r.config) && r.set_aside && !r.write_back && r.log_error,
        },
    }
}

/// Decides what start-up runs with (see `load_settled`).
pub fn settle_load(main: MainFile, backup: Option<Config>) -> (r: LoadDecision)
    ensures
        load_settled(main, backup, r),
{
    match main {
        MainFile::Parsed(c) => {
            let mut config = c;
            config.settings.sanitize();
            LoadDecision { config, set_aside: false, write_back: false, log_error: false }
        },
        MainFile::Missing => LoadDecision {
            config: Config::default(),
            set_aside: false,
            write_back: false,
            log_error: false,
        },
        MainFile::Unreadable => LoadDecision {
            config: Config::default(),
            set_aside: false,
            write_back: false,
            log_error: true,
        },
        MainFile::Corrupt => match backup {
            Some(b) => {
                let mut config = b;
                config.settings.sanitize();
                LoadDecision { config, set_aside: true, write_back: true, log_error: true }
            },
            None => LoadDecision {
                config: Config::default(),
                set_aside: true,
                write_back: false,
                log_error: true,
            },
        },
    }
}

} // verus!
