use vstd::prelude::*;

verus! {

/// Bytes of 0xFF that open a magic packet.
pub const SYNC_LEN: usize = 6;

/// Times the hardware address is repeated after the opening bytes.
pub const MAC_REPEATS: usize = 16;

/// Length of a magic packet: `6 + 16 * 6` bytes.
pub const PACKET_LEN: usize = 102;

/// The magic packet for a 6-byte hardware address: six bytes of 0xFF, then the
/// address sixteen times over.
pub open spec fn magic_packet_of(mac: Seq<u8>) -> Seq<u8> {
    Seq::new(
        PACKET_LEN as nat,
        |i: int|
            if i < SYNC_LEN {
                0xFFu8
            } else {
                mac[(i - SYNC_LEN) % 6]
            },
    )
}

/// Builds the wake payload for `mac`.
pub fn build_magic_packet(mac: &[u8; 6]) -> (r: Vec<u8>)
    ensures
        r@ == magic_packet_of(mac@),
{
    let mut packet: Vec<u8> = Vec::new();
    let mut i: usize = 0;
    while i < SYNC_LEN
        invariant
            i <= SYNC_LEN,
            packet@.len() == i,
            forall|k: int| 0 <= k < i ==> packet@[k] == 0xFFu8,
        decreases SYNC_LEN - i,
    {
        packet.push(0xFF);
        i = i + 1;
    }
    let mut j: usize = 0;
    while j < MAC_REPEATS * 6
        invariant
            j <= MAC_REPEATS * 6,
            packet@.len() == SYNC_LEN + j,
            forall|k: int| 0 <= k < SYNC_LEN ==> packet@[k] == 0xFFu8,
            forall|k: int| SYNC_LEN <= k < SYNC_LEN + j ==> #[trigger] packet@[k] == mac@[(k - SYNC_LEN) % 6],
        decreases MAC_REPEATS * 6 - j,
    {
        packet.push(mac[j % 6]);
        j = j + 1;
    }
    assert(packet@ =~= magic_packet_of(mac@));
    packet
}

/// Layout of every magic packet: 102 bytes, the first six 0xFF, and byte
/// `6 + i` equal to address byte `i % 6` for each `i` below 96.
pub proof fn lemma_magic_packet_layout(mac: Seq<u8>)
    requires
        mac.len() == 6,
    ensures
        magic_packet_of(mac).len() == 102,
        magic_packet_of(mac).subrange(0, 6) == seq![0xFFu8, 0xFFu8, 0xFFu8, 0xFFu8, 0xFFu8, 0xFFu8],
        forall|i: int| 0 <= i < 96 ==> #[trigger] magic_packet_of(mac)[6 + i] == mac[i % 6],
{
    assert(magic_packet_of(mac).subrange(0, 6) =~= seq![0xFFu8, 0xFFu8, 0xFFu8, 0xFFu8, 0xFFu8, 0xFFu8]);
    assert forall|i: int| 0 <= i < 96 implies #[trigger] magic_packet_of(mac)[6 + i] == mac[i % 6] by {
        assert((6 + i - 6) == i);
    }
}

} // verus!
