//! User defaults, read from a JSON config file. Flags override these; these
//! override the built-in defaults.
//!
//! Location: the per-user config dir
//!   * macOS:  `~/Library/Application Support/xpress/config.json`
//!   * Linux:  `$XDG_CONFIG_HOME/xpress/config.json` (or `~/.config/...`)
//!   * Windows:`%APPDATA%\xpress\config.json`
//!
//! Reading the environment and the file is the application's part: it hands
//! the platform and the variables in, and parses the JSON into this type.

use vstd::prelude::*;

use crate::compression::COMPRESSION_FACTOR_NORMAL;
use crate::paths::{join, path_join};

verus! {

/// The operating system, as far as the config location depends on it.
#[derive(Debug, Clone, Copy, PartialEq, Eq, Structural)]
pub enum Platform {
    MacOs,
    Windows,
    Other,
}

/// The environment variables the config location is derived from.
pub struct ConfigEnv<'a> {
    pub platform: Platform,
    /// `HOME`
    pub home: Option<&'a str>,
    /// `APPDATA`
    pub appdata: Option<&'a str>,
    /// `XDG_CONFIG_HOME`
    pub xdg_config_home: Option<&'a str>,
}

/// The per-user directory of the application's files: under
/// `~/Library/Application Support` on macOS, `%APPDATA%` on Windows, and
/// `$XDG_CONFIG_HOME` (else `~/.config`) elsewhere.
pub open spec fn config_dir_of(env: ConfigEnv) -> Option<Seq<char>> {
    match env.platform {
        Platform::MacOs => match env.home {
            Some(h) => Some(path_join(h@, "Library/Application Support/xpress"@)),
            None => None,
        },
        Platform::Windows => match env.appdata {
            Some(p) => Some(path_join(p@, "xpress"@)),
            None => None,
        },
        Platform::Other => match env.xdg_config_home {
            Some(x) => Some(path_join(x@, "xpress"@)),
            None => match env.home {
                Some(h) => Some(path_join(path_join(h@, ".config"@), "xpress"@)),
                None => None,
            },
        },
    }
}

/// The file `name` in the per-user directory, if there is one.
pub open spec fn config_file_of(env: ConfigEnv, name: Seq<char>) -> Option<Seq<char>> {
    match config_dir_of(env) {
        Some(d) => Some(path_join(d, name)),
        None => None,
    }
}

pub open spec fn opt_string(o: Option<String>) -> Option<Seq<char>> {
    match o {
        Some(s) => Some(s@),
        None => None,
    }
}

/// The per-user directory of the application's files.
pub fn config_dir(env: &ConfigEnv) -> (r: Option<String>)
    ensures
        opt_string(r) == config_dir_of(*env),
{
    match env.platform {
        Platform::MacOs => match env.home {
            Some(h) => Some(join(h, "Library/Application Support/xpress")),
            None => None,
        },
        Platform::Windows => match env.appdata {
            Some(p) => Some(join(p, "xpress")),
            None => None,
        },
        Platform::Other => match env.xdg_config_home {
            Some(x) => Some(join(x, "xpress")),
            None => match env.home {
                Some(h) => {
                    let c = join(h, ".config");
                    Some(join(c.as_str(), "xpress"))
                },
                None => None,
            },
        },
    }
}

/// The file `name` in the per-user directory, if there is one.
pub fn config_file(env: &ConfigEnv, name: &str) -> (r: Option<String>)
    ensures
        opt_string(r) == config_file_of(*env, name@),
{
    match config_dir(env) {
        Some(d) => Some(join(d.as_str(), name)),
        None => None,
    }
}

#[derive(Debug, Clone)]
pub struct Config {
    /// Default compression factor (5–100).
    pub compression: i32,
    /// Use the aggressive preset by default.
    pub aggressive: bool,
    /// Write `.orig` backups by default.
    pub backup: bool,
    /// Strip non-essential metadata by default.
    pub strip_metadata: bool,
    /// Preserve original timestamps by default.
    pub preserve_dates: bool,
}

impl Default for Config {
    fn default() -> (r: Self)
        ensures
            r.compression == COMPRESSION_FACTOR_NORMAL,
            !r.aggressive,
            r.backup,
            !r.strip_metadata,
            r.preserve_dates,
    {
        Config {
            compression: COMPRESSION_FACTOR_NORMAL,
            aggressive: false,
            backup: true,
            strip_metadata: false,
            preserve_dates: true,
        }
    }
}

impl Config {
    /// Where the config file lives: `config.json` in the per-user directory.
    pub fn path(env: &ConfigEnv) -> (r: Option<String>)
        ensures
            opt_string(r) == config_file_of(*env, "config.json"@),
    {
        config_file(env, "config.json")
    }
}

} // verus!
