//! The server's configuration.
//!
//! A configuration is loaded once, before the listener starts, and is
//! then shared read-only by every connection handler for the life of
//! the process.  Loading and file parsing happen outside the library;
//! the library only holds the value.

use vstd::prelude::*;

verus! {

/// The wake-on-LAN part of the configuration: the physical address of
/// the device to wake, as colon-separated hex octets.
pub struct WolConfig {
    pub mac_address: String,
}

/// The whole configuration: the `host:port` address the server listens
/// on, and the wake-on-LAN settings.
pub struct Config {
    pub address: String,
    pub wol_config: WolConfig,
}

} // verus!
