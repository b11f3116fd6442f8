//! The application configuration: the host and port the server binds. The
//! raw settings come from the process environment (read outside this
//! library); here they are validated into a configuration value, or rejected
//! as invalid, which the entry point treats as fatal.

use vstd::prelude::*;
use crate::digits::all_digits;
use crate::digits::dec_val;
use crate::digits::parse_u16;

verus! {

/// The settings the bootstrap needs: a network host and a port.
#[derive(Debug)]
pub struct ApplicationConfiguration {
    pub host: String,
    pub port: u16,
}

/// The failure raised when a required setting is absent or malformed.
#[derive(Clone, Copy, PartialEq, Eq, Structural, Debug)]
pub enum ConfigError {
    InvalidConfiguration,
}

/// Validates the raw host and port settings: the host must be non-empty and
/// the port must be decimal digits denoting a 16-bit value; anything else is
/// an invalid configuration.
pub fn get_configuration(host: String, port: &str) -> (r: Result<
    ApplicationConfiguration,
    ConfigError,
>)
    ensures
        match r {
            Ok(c) => host@.len() > 0 && c.host@ == host@ && port@.len() > 0 && all_digits(port@)
                && dec_val(port@) == c.port as int,
            Err(e) => (host@.len() == 0 || port@.len() == 0 || !all_digits(port@) || dec_val(
                port@,
            ) > u16::MAX) && e == ConfigError::InvalidConfiguration,
        },
{
    if host.as_str().is_empty() {
        return Err(ConfigError::InvalidConfiguration);
    }
    match parse_u16(port) {
        Some(p) => Ok(ApplicationConfiguration { host, port: p }),
        None => Err(ConfigError::InvalidConfiguration),
    }
}

} // verus!
