//! The settings of a session.
use vstd::prelude::*;

use crate::common::Config;

verus! {

/// How a session looks for peers and is found by them.
#[derive(Clone, Copy, Debug, PartialEq, Eq)]
pub struct SessionSettings {
    pub use_dht: bool,
    pub announce: bool,
    pub port: u16,
    pub ipv4_only: bool,
    pub use_utp: bool,
}

/// How a session looks for peers and is found by them, by the user's settings. Without
/// trackers nothing is announced to them, and the DHT is left to find peers. The port is the
/// low half of the number that the settings give.
pub fn session_settings(config: &Config) -> (r: SessionSettings)
    ensures
        r.use_dht,
        r.announce == !config.disable_trackers,
        r.port == config.incoming_port as u16,
        r.ipv4_only == config.disable_ipv6,
        r.use_utp == !config.disable_utp,
{
    SessionSettings {
        use_dht: true,
        announce: !config.disable_trackers,
        port: config.incoming_port as u16,
        ipv4_only: config.disable_ipv6,
        use_utp: !config.disable_utp,
    }
}

} // verus!
