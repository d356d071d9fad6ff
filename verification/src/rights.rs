//! Rights carried by a handle, as a bit set.
use vstd::prelude::*;

verus! {

/// A set of rights; one bit each.
pub type Rights = u64;

pub const NONE: u64 = 0;
pub const READ: u64 = 0x1;
pub const WRITE: u64 = 0x2;
pub const EXECUTE: u64 = 0x4;
pub const MAP: u64 = 0x8;
pub const SIGNAL: u64 = 0x10;
pub const WAIT: u64 = 0x20;
pub const CREATE: u64 = 0x40;
pub const MANAGE: u64 = 0x80;
pub const DUPLICATE: u64 = 0x100;
pub const TRANSIT: u64 = 0x200;
pub const GRANT: u64 = 0x400;

/// Every right that has a meaning.
pub const KNOWN: u64 = 0x7ff;

/// What the holder of a role may have at most.
pub const DELIVERY: u64 = TRANSIT | GRANT;
pub const JOB_CONTROL: u64 = CREATE | MANAGE | READ | WAIT | DUPLICATE | TRANSIT | GRANT;
pub const LIFETIME_OBSERVER: u64 = WAIT | DUPLICATE | TRANSIT | GRANT;
pub const MAILBOX_OWNER: u64 = READ | WAIT | MANAGE | GRANT;
pub const MAILBOX_SENDER: u64 = WRITE | WAIT | TRANSIT | GRANT | DUPLICATE;
pub const MAILBOX_SENDER_ONCE: u64 = WRITE | WAIT | TRANSIT | GRANT;
pub const MEMORY_OBJECT: u64 = MAP | READ | WRITE | WAIT | MANAGE | DUPLICATE | TRANSIT | GRANT
    | EXECUTE;
pub const MEMORY_POOL: u64 = CREATE | READ | DUPLICATE | TRANSIT | GRANT;
pub const NOTIFICATION_OWNER: u64 = READ | WAIT | MANAGE | GRANT;
pub const NOTIFICATION_SIGNALER: u64 = SIGNAL | WAIT | TRANSIT | GRANT | DUPLICATE;
pub const PROCESS_BUILDER: u64 = MAP | WRITE | MANAGE | TRANSIT | GRANT;
pub const PROCESS_CONTROL: u64 = READ | WAIT | MANAGE | DUPLICATE | TRANSIT | GRANT;
pub const SYSTEM_RESET_CONTROL: u64 = MANAGE | DUPLICATE | TRANSIT | GRANT;
pub const THREAD_CONTROL: u64 = WAIT | DUPLICATE | TRANSIT | GRANT;
pub const TUNNEL_ENDPOINT: u64 = WAIT | SIGNAL | MANAGE;
pub const TUNNEL_INVITATION: u64 = MAP | TRANSIT | GRANT;

/// Every right of `a` is also one of `b`.
pub open spec fn subset(a: Rights, b: Rights) -> bool {
    a & !b == 0
}

/// No bit without a meaning is set.
pub open spec fn known(a: Rights) -> bool {
    subset(a, KNOWN)
}

/// Whether `rights` holds no bit without a meaning.
pub fn is_known(rights: Rights) -> (r: bool)
    ensures
        r == known(rights),
{
    rights & !KNOWN == 0
}

/// Whether every right of `a` is also one of `b`.
pub fn is_subset_of(a: Rights, b: Rights) -> (r: bool)
    ensures
        r == subset(a, b),
{
    a & !b == 0
}

/// Attenuation composes: a subset of a subset is a subset, so no chain of
/// derivations ends with a right that its first holder did not have.
pub proof fn subset_transitive(a: Rights, b: Rights, c: Rights)
    requires
        subset(a, b),
        subset(b, c),
    ensures
        subset(a, c),
{
    assert(a & !c == 0) by (bit_vector)
        requires
            a & !b == 0,
            b & !c == 0,
    ;
}

/// A subset of known rights is known.
pub proof fn subset_of_known(a: Rights, b: Rights)
    requires
        subset(a, b),
        known(b),
    ensures
        known(a),
{
    subset_transitive(a, b, KNOWN);
}

/// Being a subset goes right by right: whatever right `a` holds, `b` holds too, exactly if `a` is
/// a subset; so two sets that are subsets of each other are the same.
pub proof fn subset_goes_right_by_right(a: Rights, b: Rights, right: Rights)
    ensures
        subset(a, b) && a & right != 0 ==> b & right != 0,
        subset(a, b) && subset(b, a) ==> a == b,
        subset(NONE, a) && subset(a, a),
        subset(a, b) <==> a & b == a,
        known(a) <==> a <= 0x7ff,
{
    assert((a & !b == 0 && a & right != 0 ==> b & right != 0) && (a & !b == 0 && b & !a == 0 ==> a
        == b) && 0u64 & !a == 0 && a & !a == 0 && (a & !b == 0 <==> a & b == a) && (a & !0x7ffu64
        == 0 <==> a <= 0x7ff)) by (bit_vector);
}

} // verus!
