use vstd::prelude::*;
use vstd::string::StringExecFns;

verus! {

/// The settings every configuration starts from, as YAML.
pub const DEFAULT_CONFIG: &'static str = "http:\n  bind:\n    ip: 127.0.0.1\n    port: 8081\ntentacles: []\n";

/// The prefix of the environment variables that override settings.
pub const ENV_PREFIX: &'static str = "app";

/// The message for a configuration file that is not there.
pub open spec fn missing_file_text(name: Seq<char>) -> Seq<char> {
    "Configuration file "@ + name + " does not exist"@
}

/// Says that the configuration file `name` does not exist.
pub fn missing_file_message(name: &str) -> (r: String)
    ensures
        r@ == missing_file_text(name@),
{
    proof {
        reveal_strlit("Configuration file ");
        reveal_strlit(" does not exist");
    }
    let mut s = String::from_str("Configuration file ");
    s.append(name);
    s.append(" does not exist");
    s
}

/// The name of the log level for a verbosity given as a count of `-v` flags.
pub open spec fn level_name(verbosity: u64) -> Seq<char> {
    if verbosity == 0 {
        "error"@
    } else if verbosity == 1 {
        "warn"@
    } else if verbosity == 2 {
        "info"@
    } else if verbosity == 3 {
        "debug"@
    } else {
        "trace"@
    }
}

/// The logger filter: the level, for `module` alone if one is named.
pub open spec fn log_filter_text(verbosity: u64, module: Option<String>) -> Seq<char> {
    match module {
        Some(m) => m@ + "="@ + level_name(verbosity),
        None => level_name(verbosity),
    }
}

/// The logger filter for a verbosity and an optional module.
pub fn log_filter(verbosity: u64, module: &Option<String>) -> (r: String)
    ensures
        r@ == log_filter_text(verbosity, *module),
{
    proof {
        reveal_strlit("error");
        reveal_strlit("warn");
        reveal_strlit("info");
        reveal_strlit("debug");
        reveal_strlit("trace");
        reveal_strlit("=");
    }
    let level: &str = if verbosity == 0 {
        "error"
    } else if verbosity == 1 {
        "warn"
    } else if verbosity == 2 {
        "info"
    } else if verbosity == 3 {
        "debug"
    } else {
        "trace"
    };
    match module {
        Some(m) => {
            let mut filter = m.clone();
            filter.append("=");
            filter.append(level);
            filter
        },
        None => String::from_str(level),
    }
}

} // verus!
