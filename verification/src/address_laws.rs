//! What holds of every target list: which addresses are private, and that the
//! targets of a list are those of its parts, one after the other.
use crate::addresses::{all_private, all_targets, AddressInput, TargetView};
use crate::ip::{is_private, ipv4_bits, IpAddress};
use vstd::arithmetic::power2::lemma2_to64;
use vstd::prelude::*;

verus! {

/// In dotted notation the private addresses are `10.x.x.x`, `172.16.x.x` to
/// `172.31.x.x`, `192.168.x.x`, and the loopback addresses `127.x.x.x`.
pub proof fn law_private_by_octets(a: u8, b: u8, c: u8, d: u8)
    ensures
        is_private(IpAddress::V4(ipv4_bits(a, b, c, d))) <==> ({
            ||| a == 10
            ||| a == 172 && 16 <= b <= 31
            ||| a == 192 && b == 168
            ||| a == 127
        }),
{
    lemma2_to64();
}

/// No IPv6 address counts as private.
pub proof fn law_ipv6_is_never_private(bits: u128)
    ensures
        !is_private(IpAddress::V6(bits)),
{
}

/// A set without targets is private.
pub proof fn law_empty_set_is_private()
    ensures
        all_private(Seq::<TargetView>::empty()),
        all_private(all_targets(Seq::<AddressInput>::empty())),
{
}

/// The targets of a list of inputs are the targets of its front part followed
/// by those of its back part: every input's targets stand together, in input
/// order.
pub proof fn law_targets_follow_input_order(front: Seq<AddressInput>, back: Seq<AddressInput>)
    ensures
        all_targets(front + back) == all_targets(front) + all_targets(back),
    decreases back.len(),
{
    if back.len() == 0 {
        assert(front + back =~= front);
        assert(all_targets(front) + all_targets(back) =~= all_targets(front));
    } else {
        law_targets_follow_input_order(front, back.drop_last());
        assert((front + back).drop_last() =~= front + back.drop_last());
        assert((front + back).last() == back.last());
        assert(all_targets(front + back) =~= all_targets(front) + all_targets(back));
    }
}

/// A list is private exactly when both of its parts are.
pub proof fn law_private_by_parts(front: Seq<TargetView>, back: Seq<TargetView>)
    ensures
        all_private(front + back) <==> all_private(front) && all_private(back),
{
    let whole = front + back;
    if all_private(whole) {
        assert forall|i: int| 0 <= i < front.len() implies is_private(#[trigger] front[i].ip) by {
            assert(whole[i] == front[i]);
        }
        assert forall|i: int| 0 <= i < back.len() implies is_private(#[trigger] back[i].ip) by {
            assert(whole[front.len() + i] == back[i]);
        }
    }
    if all_private(front) && all_private(back) {
        assert forall|i: int| 0 <= i < whole.len() implies is_private(#[trigger] whole[i].ip) by {
            if i < front.len() {
                assert(whole[i] == front[i]);
            } else {
                assert(whole[i] == back[i - front.len()]);
            }
        }
    }
}

} // verus!
