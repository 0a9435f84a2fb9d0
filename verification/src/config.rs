//! Persistent settings and the token-resolution rule.
//!
//! Reading and writing the config file, the environment and the system
//! keyring are the caller's part; this module holds the data model and the
//! priority rule that combines the possible token sources.

use vstd::prelude::*;
use crate::strutil::{trim_spec, trim_chars, str_to_chars};

verus! {

/// Errors from config operations.
#[derive(Debug, Clone, PartialEq, Eq)]
pub enum ConfigError {
    /// Failed to determine the config directory.
    ConfigDirNotFound,
    /// Failed to read the config file.
    ReadError(String),
    /// Failed to parse the config file.
    ParseError(String),
    /// Failed to serialize the config.
    SerializeError(String),
    /// A keyring operation failed.
    KeyringError(String),
    /// Any other failure.
    Other(String),
}

/// The description text of each config failure.
pub open spec fn config_error_message(e: &ConfigError) -> Seq<char> {
    match e {
        ConfigError::ConfigDirNotFound => "Unable to determine config directory"@,
        ConfigError::ReadError(s) => "Failed to read config file: "@ + s@,
        ConfigError::ParseError(s) => "Failed to parse config file: "@ + s@,
        ConfigError::SerializeError(s) => "Failed to serialize config: "@ + s@,
        ConfigError::KeyringError(s) => "Keyring operation failed: "@ + s@,
        ConfigError::Other(s) => s@,
    }
}

impl ConfigError {
    /// A human-readable description of the failure.
    pub fn message(&self) -> (r: String)
        ensures
            r@ == config_error_message(self),
    {
        match self {
            ConfigError::ConfigDirNotFound => String::from_str(
                "Unable to determine config directory",
            ),
            ConfigError::ReadError(s) => {
                let mut m = String::from_str("Failed to read config file: ");
                m.append(s.as_str());
                m
            },
            ConfigError::ParseError(s) => {
                let mut m = String::from_str("Failed to parse config file: ");
                m.append(s.as_str());
                m
            },
            ConfigError::SerializeError(s) => {
                let mut m = String::from_str("Failed to serialize config: ");
                m.append(s.as_str());
                m
            },
            ConfigError::KeyringError(s) => {
                let mut m = String::from_str("Keyring operation failed: ");
                m.append(s.as_str());
                m
            },
            ConfigError::Other(s) => {
                let mut m = String::new();
                m.append(s.as_str());
                proof {
                    assert(m@ =~= s@);
                }
                m
            },
        }
    }
}

/// Persistent settings.
#[derive(Debug, Clone)]
pub struct Config {
    /// Default owner to fetch rules from.
    pub owner: Option<String>,
    /// Default repository name.
    pub repo: Option<String>,
    /// Default output directory for copied rules.
    pub out_dir: Option<String>,
    /// Whether telemetry is enabled.
    pub telemetry: Option<bool>,
}

impl Default for Config {
    /// An empty configuration: every setting unset.
    fn default() -> (r: Self)
        ensures
            r.owner is None,
            r.repo is None,
            r.out_dir is None,
            r.telemetry is None,
    {
        Config { owner: None, repo: None, out_dir: None, telemetry: None }
    }
}

/// Service name for keyring entries.
pub const KEYRING_SERVICE: &'static str = "cursor-rules-cli";

/// Account name for the stored token in the keyring.
pub const KEYRING_ACCOUNT: &'static str = "github-token";

/// Secure token storage. Implementations talk to a system keyring or a
/// test double, so nothing is promised about their behaviour.
pub trait SecretStore {
    /// Get the stored token, when one exists.
    fn get_token(&self) -> Result<Option<String>, ConfigError>;

    /// Store a token.
    fn set_token(&self, token: &str) -> Result<(), ConfigError>;

    /// Delete the stored token.
    fn delete_token(&self) -> Result<(), ConfigError>;
}

/// Token storage backed by the system keyring; the keyring calls are made
/// by the caller, which keys its entries by `KEYRING_SERVICE` and
/// `KEYRING_ACCOUNT`.
#[derive(Debug, Clone, Copy, PartialEq, Eq, Structural)]
pub struct KeyringStore;

/// The token-source priority: an explicit token wins, then a non-blank
/// environment value, then whatever the secret store held.
pub fn resolve_token_priority(
    cli_token: Option<String>,
    env_token: Option<String>,
    stored: Option<String>,
) -> (r: Option<String>)
    ensures
        match cli_token {
            Some(t) => r matches Some(v) && v@ == t@,
            None => match env_token {
                Some(e) => {
                    if trim_spec(e@).len() > 0 {
                        r matches Some(v) && v@ == e@
                    } else {
                        r == stored
                    }
                },
                None => r == stored,
            },
        },
{
    match cli_token {
        Some(t) => Some(t),
        None => match env_token {
            Some(e) => {
                let chars = str_to_chars(e.as_str());
                let trimmed = trim_chars(&chars);
                if trimmed.len() > 0 {
                    Some(e)
                } else {
                    stored
                }
            },
            None => stored,
        },
    }
}

} // verus!
