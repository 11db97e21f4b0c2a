//! Process configuration: the shape of the settings the proxy runs with and
//! the validation rules they must pass before the process may start.
//!
//! Loading the settings from a file or the environment is I/O and lives with
//! the binary; the rules themselves are checked here.

use vstd::prelude::*;

verus! {

/// Network settings of the listening side.
#[derive(Debug, Clone)]
pub struct ServerConfig {
    pub port: u16,
    pub host: String,
}

/// The upstream target: where masked streams are forwarded.
#[derive(Debug, Clone)]
pub struct TargetConfig {
    pub url: String,
    pub timeout_ms: u64,
}

/// Settings of the structured (tree) masking mode.
#[derive(Debug, Clone)]
pub struct MaskingConfig {
    pub exclude_fields: Vec<String>,
    pub max_depth: u8,
}

/// The whole application configuration.
#[derive(Debug, Clone)]
pub struct AppConfig {
    pub server: ServerConfig,
    pub target: TargetConfig,
    pub masking: MaskingConfig,
}

/// Why a configuration was rejected.
#[derive(Debug)]
pub enum ConfigError {
    FileNotFound(String),
    ParseError(String),
    InvalidConfig(String),
}

impl ConfigError {
    /// A human-readable description of the error.
    pub fn message(&self) -> (r: String)
        ensures
            match self {
                ConfigError::FileNotFound(p) => r@ == "Config file not found: "@ + p@,
                ConfigError::ParseError(m) => r@ == "Failed to parse config: "@ + m@,
                ConfigError::InvalidConfig(m) => r@ == "Invalid configuration: "@ + m@,
            },
    {
        match self {
            ConfigError::FileNotFound(p) => String::from_str("Config file not found: ").concat(
                p.as_str(),
            ),
            ConfigError::ParseError(m) => String::from_str("Failed to parse config: ").concat(
                m.as_str(),
            ),
            ConfigError::InvalidConfig(m) => String::from_str("Invalid configuration: ").concat(
                m.as_str(),
            ),
        }
    }
}

/// The URL begins with the plain HTTP scheme.
pub open spec fn has_http_prefix(s: Seq<char>) -> bool {
    s.len() >= 7 && s[0] == 'h' && s[1] == 't' && s[2] == 't' && s[3] == 'p' && s[4] == ':'
        && s[5] == '/' && s[6] == '/'
}

/// The URL begins with the TLS HTTP scheme.
pub open spec fn has_https_prefix(s: Seq<char>) -> bool {
    s.len() >= 8 && s[0] == 'h' && s[1] == 't' && s[2] == 't' && s[3] == 'p' && s[4] == 's'
        && s[5] == ':' && s[6] == '/' && s[7] == '/'
}

impl AppConfig {
    /// Every rule a runnable configuration must satisfy: a nonzero port, a
    /// nonempty target URL with a recognized scheme, a nonzero timeout and a
    /// nonzero masking depth.
    pub open spec fn spec_valid(&self) -> bool {
        &&& self.server.port != 0
        &&& self.target.url@.len() > 0
        &&& (has_http_prefix(self.target.url@) || has_https_prefix(self.target.url@))
        &&& self.target.timeout_ms != 0
        &&& self.masking.max_depth != 0
    }

    /// Checks the configuration rules, reporting the first violated one.
    pub fn validate(&self) -> (r: Result<(), ConfigError>)
        ensures
            r is Ok <==> self.spec_valid(),
            self.server.port == 0 ==> (r matches Err(ConfigError::InvalidConfig(m)) && m@
                == "Server port cannot be 0"@),
            self.server.port != 0 && self.target.url@.len() == 0 ==> (r matches Err(
                ConfigError::InvalidConfig(m),
            ) && m@ == "Target URL cannot be empty"@),
            self.server.port != 0 && self.target.url@.len() > 0 && !(has_http_prefix(
                self.target.url@,
            ) || has_https_prefix(self.target.url@)) ==> (r matches Err(
                ConfigError::InvalidConfig(m),
            ) && m@ == "Target URL must start with http:// or https://: "@ + self.target.url@),
            self.server.port != 0 && self.target.url@.len() > 0 && (has_http_prefix(
                self.target.url@,
            ) || has_https_prefix(self.target.url@)) && self.target.timeout_ms == 0 ==> (r matches
                Err(ConfigError::InvalidConfig(m)) && m@
                == "Target timeout must be greater than 0"@),
            self.server.port != 0 && self.target.url@.len() > 0 && (has_http_prefix(
                self.target.url@,
            ) || has_https_prefix(self.target.url@)) && self.target.timeout_ms != 0
                && self.masking.max_depth == 0 ==> (r matches Err(ConfigError::InvalidConfig(m))
                && m@ == "Max depth must be greater than 0"@),
    {
        if self.server.port == 0 {
            return Err(
                ConfigError::InvalidConfig(String::from_str("Server port cannot be 0")),
            );
        }
        let url_chars = crate::text::str_to_chars(self.target.url.as_str());
        if url_chars.len() == 0 {
            return Err(
                ConfigError::InvalidConfig(String::from_str("Target URL cannot be empty")),
            );
        }
        let http_ok = url_chars.len() >= 7 && url_chars[0] == 'h' && url_chars[1] == 't'
            && url_chars[2] == 't' && url_chars[3] == 'p' && url_chars[4] == ':' && url_chars[5]
            == '/' && url_chars[6] == '/';
        let https_ok = url_chars.len() >= 8 && url_chars[0] == 'h' && url_chars[1] == 't'
            && url_chars[2] == 't' && url_chars[3] == 'p' && url_chars[4] == 's' && url_chars[5]
            == ':' && url_chars[6] == '/' && url_chars[7] == '/';
        if !http_ok && !https_ok {
            return Err(
                ConfigError::InvalidConfig(
                    String::from_str("Target URL must start with http:// or https://: ").concat(
                        self.target.url.as_str(),
                    ),
                ),
            );
        }
        if self.target.timeout_ms == 0 {
            return Err(
                ConfigError::InvalidConfig(
                    String::from_str("Target timeout must be greater than 0"),
                ),
            );
        }
        if self.masking.max_depth == 0 {
            return Err(
                ConfigError::InvalidConfig(String::from_str("Max depth must be greater than 0")),
            );
        }
        Ok(())
    }
}

} // verus!
