use vstd::prelude::*;

verus! {

/// The settings the engine works from.  All text is held as raw bytes, as
/// everywhere in the library; the host program reads the configuration
/// file and converts.
pub struct Config {
    pub uplink: Uplink,
    pub plugins: Option<Vec<Plugin>>,
}

pub struct Uplink {
    pub ip: Vec<u8>,
    pub port: i32,
    pub protocol: Vec<u8>,
    pub hostname: Vec<u8>,
    pub description: Vec<u8>,
    pub send_pass: Vec<u8>,
    pub recv_pass: Vec<u8>,
    pub numeric: Option<Vec<u8>>,
}

pub struct Plugin {
    pub file: Vec<u8>,
    pub load: Option<bool>,
}

/// What the engine needs of a configuration: the server numeric prefix is
/// present.
pub open spec fn config_ok(c: Config) -> bool {
    c.uplink.numeric is Some
}

} // verus!
