use vstd::prelude::*;
use crate::mac::{describes_failure, mac_bytes_of, parse_mac, valid_mac_text, ParseMacError};
use crate::packet::{build_magic_packet, magic_packet_of};

verus! {

/// UDP port that wake packets are sent to.
pub const WAKE_PORT: u16 = 9;

/// Why a wake request failed.
#[derive(Debug)]
pub enum WakeError {
    /// The device's MAC text is not a MAC address.
    ParseMac(ParseMacError),
    /// The registry lookup failed; holds the registry's description.
    Query(String),
    /// Opening the socket, enabling broadcast, or sending failed; holds the
    /// description of the I/O failure.
    Io(String),
}

impl WakeError {
    /// A one-line description for the operator.
    pub fn message(&self) -> (r: String) {
        match self {
            WakeError::ParseMac(e) => {
                let mut m = String::from_str("Could not parse MAC address: ");
                m.append(e.message().as_str());
                m
            },
            WakeError::Query(d) => {
                let mut m = String::from_str("DB error: ");
                m.append(d.as_str());
                m
            },
            WakeError::Io(d) => {
                let mut m = String::from_str("IO error: ");
                m.append(d.as_str());
                m
            },
        }
    }
}

/// What a wake request for MAC text `s` sends, when `s` is a MAC address.
pub open spec fn wake_payload_of(s: Seq<char>) -> Seq<u8> {
    magic_packet_of(mac_bytes_of(s))
}

/// The datagram that wakes the host with MAC text `mac`: its magic packet, or
/// the reason the text is not a MAC address. The outcome depends on the text
/// alone: the library keeps no state between requests.
pub fn wake_packet(mac: &str) -> (r: Result<Vec<u8>, WakeError>)
    ensures
        r is Ok <==> valid_mac_text(mac@),
        r is Ok ==> r->Ok_0@ == wake_payload_of(mac@),
        r is Err ==> r->Err_0 is ParseMac && describes_failure(mac@, r->Err_0->ParseMac_0),
{
    match parse_mac(mac) {
        Ok(bytes) => Ok(build_magic_packet(&bytes)),
        Err(e) => Err(WakeError::ParseMac(e)),
    }
}

/// Waking is repeatable: the library keeps no state between requests, so two
/// requests with the same MAC text are accepted or refused alike, carry the
/// same payload when accepted, and fail for the same reason when refused.
pub proof fn lemma_wake_repeatable(first: Seq<char>, second: Seq<char>, e: ParseMacError)
    requires
        first == second,
    ensures
        valid_mac_text(first) == valid_mac_text(second),
        valid_mac_text(first) ==> wake_payload_of(first) == wake_payload_of(second),
        describes_failure(first, e) == describes_failure(second, e),
{
}

} // verus!
