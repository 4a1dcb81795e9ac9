//! Wake-on-LAN host registry core: strict MAC address parsing, construction of
//! the wake "magic packet", and the pure decisions around the liveness probe
//! fan-out (which hosts to probe, and how their outcomes are aggregated).
//!
//! Network and storage side effects live outside this library; every function
//! here is verified against its contract.

pub mod device;
pub mod hex;
pub mod mac;
pub mod packet;
pub mod probe;
pub mod wake;

pub use device::{prepare_for_write, WolDevice};
pub use mac::{parse_mac, ParseMacError};
pub use packet::build_magic_packet;
pub use probe::{
    collect_statuses, probe_targets, IpAddress, ProbeCandidate, ProbeOutcome, ProbeTarget,
    StatusError, PROBE_TIMEOUT_SECS,
};
pub use wake::{wake_packet, WakeError, WAKE_PORT};
