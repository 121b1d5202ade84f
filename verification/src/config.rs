//! Startup configuration: the backend credential, loaded once at process
//! start. The shell refuses to start when the credential variable is unset;
//! afterwards the accessor hands the configured value back unchanged.

use vstd::prelude::*;

verus! {

/// Why the shell refused to start.
#[derive(PartialEq, Eq, Structural, Clone, Copy, Debug)]
pub enum StartupError {
    /// The credential variable was unset at process start.
    MissingCredential,
}

/// Configuration the command layer is constructed with, rather than read
/// ad hoc from global process state at each call.
pub struct Config {
    api_key: String,
}

impl Config {
    /// The configured credential, as the command layer sees it.
    pub closed spec fn spec_api_key(&self) -> Seq<char> {
        self.api_key@
    }

    /// Builds the configuration from the value the environment gave for the
    /// credential variable. With the variable unset nothing is built: the
    /// caller must abort before any window is shown.
    pub fn from_env_value(value: Option<String>) -> (r: Result<Config, StartupError>)
        ensures
            match value {
                Some(s) => r matches Ok(c) && c.spec_api_key() == s@,
                None => r matches Err(e) && e == StartupError::MissingCredential,
            },
    {
        match value {
            Some(s) => Ok(Config { api_key: s }),
            None => Err(StartupError::MissingCredential),
        }
    }

    /// Returns exactly the configured credential string.
    pub fn get_api_key(&self) -> (r: &String)
        ensures
            r@ == self.spec_api_key(),
    {
        &self.api_key
    }
}

} // verus!
