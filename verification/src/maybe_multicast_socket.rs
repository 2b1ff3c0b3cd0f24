//! The decision side of the multicast-aware receiver: validating the
//! requested group address and tracking the join/leave membership
//! lifecycle. Binding, receiving and the actual join and leave calls are
//! the I/O layer's concern; it consults this state at teardown so that a
//! joined group is left exactly once, however teardown is reached.

use vstd::prelude::*;

use crate::pipeline::sat_inc;

verus! {

/// Whether the 32-bit IPv4 address `a` lies in the multicast range
/// `224.0.0.0/4`.
pub open spec fn spec_is_multicast(a: u32) -> bool {
    0xE0000000 <= a <= 0xEFFFFFFF
}

/// Multicast-range test on a 32-bit IPv4 address.
pub fn is_multicast(a: u32) -> (r: bool)
    ensures
        r == spec_is_multicast(a),
{
    0xE0000000 <= a && a <= 0xEFFFFFFF
}

/// Why a requested membership is rejected.
#[derive(Debug)]
pub enum MembershipError {
    /// The requested group address is not a multicast address.
    NotMulticast,
}

/// A joined (group, interface) pair, together with how many teardown
/// steps have already run on it.
pub struct Membership {
    pub group: u32,
    pub iface: u32,
    pub leaves_done: u64,
}

/// The membership after one teardown step.
pub open spec fn after_leave(m: Membership) -> Membership {
    Membership { group: m.group, iface: m.iface, leaves_done: sat_inc(m.leaves_done) }
}

/// How many of `n` consecutive teardown steps ask the caller to perform
/// the actual leave.
pub open spec fn leaves_signalled(m: Membership, n: nat) -> nat
    decreases n,
{
    if n == 0 {
        0
    } else {
        (if m.leaves_done == 0 {
            1nat
        } else {
            0nat
        }) + leaves_signalled(after_leave(m), (n - 1) as nat)
    }
}

impl Membership {
    /// Request membership of `group` on interface `iface`: granted exactly
    /// when the group address is a multicast address.
    pub fn join(group: u32, iface: u32) -> (r: Result<Membership, MembershipError>)
        ensures
            r is Ok <==> spec_is_multicast(group),
            r matches Ok(m) ==> m == (Membership { group, iface, leaves_done: 0 }),
            r matches Err(e) ==> e == MembershipError::NotMulticast,
    {
        if is_multicast(group) {
            Ok(Membership { group, iface, leaves_done: 0 })
        } else {
            Err(MembershipError::NotMulticast)
        }
    }

    /// One teardown step. Returns whether the caller must perform the
    /// actual leave now: it does the first time and never again.
    pub fn leave(&mut self) -> (r: bool)
        ensures
            r == (old(self).leaves_done == 0),
            *final(self) == after_leave(*old(self)),
    {
        let first = self.leaves_done == 0;
        if self.leaves_done != u64::MAX {
            self.leaves_done = self.leaves_done + 1;
        }
        first
    }
}

/// The construction-time decision of the multicast-aware receiver: with
/// no group requested the socket is a plain bound one with nothing to
/// manage; a requested group must be a multicast address and is then
/// joined on the given interface.
pub fn plan_membership(group_and_iface: Option<(u32, u32)>) -> (r: Result<
    Option<Membership>,
    MembershipError,
>)
    ensures
        group_and_iface is None ==> r == Ok::<Option<Membership>, MembershipError>(None),
        group_and_iface matches Some(gi) ==> (r is Ok <==> spec_is_multicast(gi.0)),
        group_and_iface matches Some(gi) ==> (r matches Ok(om) ==> om == Some(
            Membership { group: gi.0, iface: gi.1, leaves_done: 0 },
        )),
        r matches Err(e) ==> e == MembershipError::NotMulticast,
{
    match group_and_iface {
        None => Ok(None),
        Some((group, iface)) => match Membership::join(group, iface) {
            Ok(m) => Ok(Some(m)),
            Err(e) => Err(e),
        },
    }
}

/// Law: starting from a fresh membership, any number of teardown steps
/// (at least one) asks for the actual leave exactly once.
pub proof fn lemma_leave_exactly_once(m: Membership, n: nat)
    requires
        m.leaves_done == 0,
        n >= 1,
    ensures
        leaves_signalled(m, n) == 1,
{
    lemma_no_further_leaves(after_leave(m), (n - 1) as nat);
}

/// After the first teardown step has run, no later step asks for a leave.
pub proof fn lemma_no_further_leaves(m: Membership, n: nat)
    requires
        m.leaves_done > 0,
    ensures
        leaves_signalled(m, n) == 0,
    decreases n,
{
    if n > 0 {
        lemma_no_further_leaves(after_leave(m), (n - 1) as nat);
    }
}

} // verus!
