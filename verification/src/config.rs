//! Application-level configuration values and their defaults. Reading and
//! writing them on disk is the caller's concern.

use vstd::prelude::*;
use crate::types::Subscription;

verus! {

/// Host and port for serving the synthesized configuration.
pub struct ServerConfig {
    pub port: u16,
    pub host: String,
}

impl Default for ServerConfig {
    fn default() -> (r: Self)
        ensures
            r.port == 8080,
            r.host@ == "127.0.0.1"@,
    {
        ServerConfig { port: 8080, host: String::from_str("127.0.0.1") }
    }
}

/// Where the synthesized configuration is written.
pub struct OutputConfig {
    pub path: String,
}

impl Default for OutputConfig {
    fn default() -> (r: Self)
        ensures
            r.path@ == "output_config.yaml"@,
    {
        OutputConfig { path: String::from_str("output_config.yaml") }
    }
}

/// Where the base configuration template is read from.
pub struct BasicConfigPath {
    pub path: String,
}

impl Default for BasicConfigPath {
    fn default() -> (r: Self)
        ensures
            r.path@ == "basic.yml"@,
    {
        BasicConfigPath { path: String::from_str("basic.yml") }
    }
}

/// The application configuration: subscriptions plus server, output and
/// base-template settings.
pub struct AppConfig {
    pub subscriptions: Vec<Subscription>,
    pub server: ServerConfig,
    pub output: OutputConfig,
    pub basic_config: BasicConfigPath,
}

} // verus!
