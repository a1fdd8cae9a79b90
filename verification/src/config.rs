//! What the outside hands the library at startup.
//!
//! Argument parsing itself happens outside the library; it delivers plain
//! values in this structure and maps its own failures onto `ConfigError`.

use crate::server::ServerKind;
use vstd::prelude::*;

verus! {

/// A typed failure while assembling the configuration.
#[derive(Debug)]
pub enum ConfigError {
    /// The requested server kind is not one of the known names.
    UnknownServerKind(String),
    /// A numeric argument could not be read.
    NumberParseError(String),
    /// Neither a USB vendor id nor a product id was supplied.
    NoTargetSpecified,
}

/// The startup choices: which target to reach, which server to run, and the
/// optional one-shot and stress-mode parameters.
pub struct Config {
    /// USB vendor id to match, if any.
    pub usb_vid: Option<u16>,
    /// USB product id to match, if any.
    pub usb_pid: Option<u16>,
    /// Address the servers bind to.
    pub bind_addr: String,
    /// Port the servers listen on.
    pub bind_port: u16,
    /// One-shot access address.
    pub memory_address: Option<u32>,
    /// One-shot access value; present means write, absent means read.
    pub memory_value: Option<u32>,
    /// Where the stress mode hammers, if not the default.
    pub random_address: Option<u32>,
    /// How many stress iterations to run; absent means run until stopped.
    pub random_loops: Option<u32>,
    /// Which top-level loop to run.
    pub server_kind: ServerKind,
}

impl Config {
    /// The defaults: no target, bind everywhere on port 1234, no one-shot
    /// access, no stress parameters, no server.
    pub fn new() -> (r: Config)
        ensures
            r.usb_vid is None,
            r.usb_pid is None,
            r.bind_addr@ == "0.0.0.0"@,
            r.bind_port == 1234,
            r.memory_address is None,
            r.memory_value is None,
            r.random_address is None,
            r.random_loops is None,
            r.server_kind == ServerKind::NoServer,
    {
        Config {
            usb_vid: None,
            usb_pid: None,
            bind_addr: "0.0.0.0".to_owned(),
            bind_port: 1234,
            memory_address: None,
            memory_value: None,
            random_address: None,
            random_loops: None,
            server_kind: ServerKind::NoServer,
        }
    }
}

} // verus!
