//! The magic-packet payload: six synchronization bytes of 0xFF followed by
//! the target hardware address repeated sixteen times, 102 bytes in all.

use vstd::prelude::*;

use crate::mac::HardwareAddress;

verus! {

/// The exact payload the wake-on-LAN wire format prescribes for a
/// six-octet hardware address.
pub open spec fn magic_packet_spec(mac: Seq<u8>) -> Seq<u8> {
    Seq::new(102, |i: int| if i < 6 { 0xffu8 } else { mac[(i - 6) % 6] })
}

/// Builds the magic packet for `mac`: the 6-byte synchronization prefix
/// followed by the address repeated 16 times.
pub fn build_packet(mac: &HardwareAddress) -> (data: Vec<u8>)
    requires
        mac.wf(),
    ensures
        data@ == magic_packet_spec(mac@),
{
    let mut data: Vec<u8> = Vec::new();
    let mut i: usize = 0;
    while i < 6
        invariant
            i <= 6,
            data@.len() == i,
            forall|t: int| 0 <= t < i ==> data@[t] == 0xffu8,
        decreases 6 - i,
    {
        data.push(0xff);
        i += 1;
    }
    let mut rep: usize = 0;
    while rep < 16
        invariant
            mac.wf(),
            rep <= 16,
            data@.len() == 6 + 6 * rep,
            forall|t: int| 0 <= t < data@.len() ==> data@[t] == magic_packet_spec(mac@)[t],
        decreases 16 - rep,
    {
        let mut j: usize = 0;
        while j < 6
            invariant
                mac.wf(),
                rep < 16,
                j <= 6,
                data@.len() == 6 + 6 * rep + j,
                forall|t: int| 0 <= t < data@.len() ==> data@[t] == magic_packet_spec(mac@)[t],
            decreases 6 - j,
        {
            let b = mac.octets[j];
            proof {
                let t = 6 + 6 * (rep as int) + j;
                assert((t - 6) % 6 == j) by (nonlinear_arith)
                    requires
                        t == 6 + 6 * (rep as int) + j,
                        0 <= j < 6,
                        0 <= rep,
                ;
            }
            data.push(b);
            j += 1;
        }
        rep += 1;
    }
    proof {
        assert(data@ =~= magic_packet_spec(mac@));
    }
    data
}

/// Building a packet is deterministic and idempotent: any two packets built
/// from the same hardware address are byte-identical.
pub proof fn lemma_build_packet_deterministic(mac: Seq<u8>, first: Seq<u8>, second: Seq<u8>)
    requires
        first == magic_packet_spec(mac),
        second == magic_packet_spec(mac),
    ensures
        first == second,
{
}

/// The packet's layout: 102 bytes, a prefix of six 0xFF bytes, then the
/// address repeated in order with no separators.
pub proof fn lemma_packet_layout(mac: Seq<u8>)
    requires
        mac.len() == 6,
    ensures
        magic_packet_spec(mac).len() == 102,
        forall|i: int| 0 <= i < 6 ==> magic_packet_spec(mac)[i] == 0xffu8,
        forall|i: int| 6 <= i < 102 ==> magic_packet_spec(mac)[i] == mac[(i - 6) % 6],
{
}

} // verus!
