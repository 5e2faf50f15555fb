use vstd::prelude::*;

verus! {

/// The ESP-NOW address that reaches every listening device.
pub const BROADCAST_ADDRESS: [u8; 6] = [0xff, 0xff, 0xff, 0xff, 0xff, 0xff];

/// The address is the broadcast address.
pub open spec fn is_broadcast(address: Seq<u8>) -> bool {
    address == BROADCAST_ADDRESS@
}

/// A receiver registers the sender of a message as a peer, for later
/// replies, when the message was broadcast and the sender is not yet known.
pub fn should_add_peer(dst_address: &[u8; 6], sender_known: bool) -> (add: bool)
    ensures
        add == (is_broadcast(dst_address@) && !sender_known),
{
    let mut all_ones = true;
    for i in 0..6
        invariant
            all_ones == (forall|j: int| 0 <= j < i ==> dst_address@[j] == 0xff),
    {
        all_ones = all_ones && dst_address[i] == 0xff;
    }
    proof {
        if all_ones {
            assert(dst_address@ =~= BROADCAST_ADDRESS@);
        }
    }
    all_ones && !sender_known
}

} // verus!
