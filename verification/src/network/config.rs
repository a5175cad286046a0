//! The fixed names and times of the overlay.

use vstd::prelude::*;

verus! {

/// The topic that every node subscribes to.
pub const GLOBAL_TOPIC: &'static str = "manifestation-global";

/// The protocol string that a node identifies itself with.
pub const IDENTIFY_PROTOCOL: &'static str = "manifestation/1.0.0";

/// The address that a node listens on by default; the port is the system's
/// choice.
pub const DEFAULT_LISTEN_ADDRESS: &'static str = "/ip4/0.0.0.0/tcp/0";

/// Seconds between two heartbeats of the pub/sub layer.
pub const HEARTBEAT_SECS: u64 = 10;

/// Seconds for which the pub/sub layer remembers a message as a duplicate.
pub const DUPLICATE_CACHE_SECS: u64 = 60;

/// Seconds between two pings of a peer.
pub const PING_INTERVAL_SECS: u64 = 30;

/// Seconds after which an idle connection is closed.
pub const IDLE_CONNECTION_TIMEOUT_SECS: u64 = 60;

} // verus!
