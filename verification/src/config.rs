//! The settings that the library's decisions depend on.

use vstd::prelude::*;

verus! {

/// How many connections a server takes where nothing else is configured.
pub const DEFAULT_MAX_CONNECTIONS: u32 = 256;

/// How many tunnels a connection may have where nothing else is configured.
pub const DEFAULT_MAX_TARGETS_PER_CONN: u32 = 256;

/// How many request streams a connection may have where nothing else is
/// configured.
pub const DEFAULT_MAX_STREAMS_BIDI: u32 = 1024;

/// Which address family is tried first.
#[derive(Debug, Clone, Copy, PartialEq, Eq, Structural)]
pub enum IpFamilyPreference {
    /// Whichever the resolver put first.
    System,
    /// IPv4.
    Ipv4,
    /// IPv6.
    Ipv6,
}

/// The congestion controller a connection runs.
#[derive(Debug, Clone, Copy, PartialEq, Eq, Structural)]
pub enum CongestionControl {
    /// BBR, which models bandwidth and round-trip time.
    Bbr,
    /// CUBIC, which goes by loss.
    Cubic,
    /// NewReno, which goes by loss.
    NewReno,
}

/// How much a server and its connections may take.
#[derive(Debug, Clone, Copy)]
pub struct Limits {
    /// How many connections the server takes; zero for no cap.
    pub max_connections: u32,
    /// How many tunnels one connection may have.
    pub max_targets_per_conn: u32,
    /// How many request streams an authenticated connection may have.
    pub max_streams_bidi: u32,
    /// How long a connection may be silent, in milliseconds.
    pub max_idle_timeout_ms: u64,
    /// How often a silent connection is kept alive, in milliseconds; zero for
    /// never.
    pub keep_alive_interval_ms: u64,
    /// The round-trip time assumed before there is a sample, in milliseconds.
    pub initial_rtt_ms: u64,
    /// The packet size a connection starts with.
    pub initial_mtu: u16,
    /// Whether larger packets are probed for.
    pub mtu_discovery: bool,
    /// The largest packet that is probed for.
    pub mtu_upper_bound: u16,
    /// The congestion controller.
    pub congestion_control: CongestionControl,
    /// The receive buffer asked of the kernel; zero to ask for none.
    pub socket_recv_buffer: usize,
    /// The send buffer asked of the kernel; zero to ask for none.
    pub socket_send_buffer: usize,
}

/// What a proxy may be asked to reach.
#[derive(Debug)]
pub struct Security {
    /// Whether loopback and other private ranges may be dialled.
    pub allow_private_networks: bool,
    /// Target ports that are refused whatever the address.
    pub denied_ports: Vec<u16>,
}

impl Default for Security {
    fn default() -> (security: Security)
        ensures
            !security.allow_private_networks,
            security.denied_ports@ == seq![25u16],
    {
        let denied_ports: Vec<u16> = vec![25];
        assert(denied_ports@ =~= seq![25u16]);
        Security { allow_private_networks: false, denied_ports }
    }
}

} // verus!
