//! Capability table: flat bitmask access control.
//!
//! Each task holds a [`CapBits`] mask in its control block.  Before a
//! syscall is carried out the kernel looks up the bits the call needs and
//! checks them against the caller's mask.  The functions here are pure.

use vstd::prelude::*;

verus! {

/// Capability bitmask: each bit grants one permission.
pub type CapBits = u64;

/// Permission to send IPC on endpoint 0
pub const CAP_IPC_SEND_EP0: CapBits = 1 << 0;
/// Permission to receive IPC on endpoint 0
pub const CAP_IPC_RECV_EP0: CapBits = 1 << 1;
/// Permission to send IPC on endpoint 1
pub const CAP_IPC_SEND_EP1: CapBits = 1 << 2;
/// Permission to receive IPC on endpoint 1
pub const CAP_IPC_RECV_EP1: CapBits = 1 << 3;
/// Permission to write to the console
pub const CAP_WRITE: CapBits = 1 << 4;
/// Permission to yield the CPU
pub const CAP_YIELD: CapBits = 1 << 5;
/// Permission to send notifications
pub const CAP_NOTIFY: CapBits = 1 << 6;
/// Permission to wait for notifications
pub const CAP_WAIT_NOTIFY: CapBits = 1 << 7;
/// Permission to send IPC on endpoint 2
pub const CAP_IPC_SEND_EP2: CapBits = 1 << 8;
/// Permission to receive IPC on endpoint 2
pub const CAP_IPC_RECV_EP2: CapBits = 1 << 9;
/// Permission to send IPC on endpoint 3
pub const CAP_IPC_SEND_EP3: CapBits = 1 << 10;
/// Permission to receive IPC on endpoint 3
pub const CAP_IPC_RECV_EP3: CapBits = 1 << 11;
/// Permission to create shared memory grants
pub const CAP_GRANT_CREATE: CapBits = 1 << 12;
/// Permission to revoke shared memory grants
pub const CAP_GRANT_REVOKE: CapBits = 1 << 13;
/// Permission to bind an IRQ to a notification
pub const CAP_IRQ_BIND: CapBits = 1 << 14;
/// Permission to acknowledge an IRQ
pub const CAP_IRQ_ACK: CapBits = 1 << 15;
/// Permission to map a device's MMIO into user space
pub const CAP_DEVICE_MAP: CapBits = 1 << 16;
/// Permission to register a watchdog heartbeat
pub const CAP_HEARTBEAT: CapBits = 1 << 17;

/// All capabilities (for privileged tasks)
pub const CAP_ALL: CapBits = CAP_IPC_SEND_EP0 | CAP_IPC_RECV_EP0 | CAP_IPC_SEND_EP1
    | CAP_IPC_RECV_EP1 | CAP_WRITE | CAP_YIELD | CAP_NOTIFY | CAP_WAIT_NOTIFY | CAP_IPC_SEND_EP2
    | CAP_IPC_RECV_EP2 | CAP_IPC_SEND_EP3 | CAP_IPC_RECV_EP3 | CAP_GRANT_CREATE
    | CAP_GRANT_REVOKE | CAP_IRQ_BIND | CAP_IRQ_ACK | CAP_DEVICE_MAP | CAP_HEARTBEAT;

/// No capabilities
pub const CAP_NONE: CapBits = 0;

/// Whether bit `i` of `mask` is set.
pub open spec fn has_bit(mask: u64, i: u64) -> bool {
    (mask >> i) & 1 == 1
}

/// `mask` holds every bit of `required`.
pub open spec fn covers(mask: u64, required: u64) -> bool {
    forall|i: u64| i < 64 && has_bit(required, i) ==> has_bit(mask, i)
}

/// Check whether `caps` includes all bits in `required`.
pub fn cap_check(caps: CapBits, required: CapBits) -> (ok: bool)
    ensures
        ok == (caps & required == required),
        ok == covers(caps, required),
        required == 0 ==> ok,
        required == CAP_UNSATISFIABLE && caps & !CAP_ALL == 0 ==> !ok,
{
    proof {
        lemma_covers_is_subset(caps, required);
        lemma_empty_requirement(caps);
        lemma_unsatisfiable();
    }
    (caps & required) == required
}

/// The requirement of an operation that does not exist: a bit that no
/// task is ever given, so that no capability mask satisfies it.
pub const CAP_UNSATISFIABLE: CapBits = 1 << 63;

/// Number of IPC endpoints that capability bits exist for.
pub const CAP_ENDPOINTS: u64 = 4;

/// The send capability of endpoint `ep`; for an endpoint that does not
/// exist, the requirement that nothing satisfies.
pub open spec fn send_cap(ep: u64) -> CapBits {
    if ep == 0 {
        CAP_IPC_SEND_EP0
    } else if ep == 1 {
        CAP_IPC_SEND_EP1
    } else if ep == 2 {
        CAP_IPC_SEND_EP2
    } else if ep == 3 {
        CAP_IPC_SEND_EP3
    } else {
        CAP_UNSATISFIABLE
    }
}

/// The receive capability of endpoint `ep`; for an endpoint that does
/// not exist, the requirement that nothing satisfies.
pub open spec fn recv_cap(ep: u64) -> CapBits {
    if ep == 0 {
        CAP_IPC_RECV_EP0
    } else if ep == 1 {
        CAP_IPC_RECV_EP1
    } else if ep == 2 {
        CAP_IPC_RECV_EP2
    } else if ep == 3 {
        CAP_IPC_RECV_EP3
    } else {
        CAP_UNSATISFIABLE
    }
}

/// Whether `(syscall_nr, ep_id)` names an operation of the syscall ABI:
/// a known syscall number and, for the three IPC calls, an endpoint that
/// exists.  Every other pair can be satisfied by no capability mask.
pub open spec fn syscall_recognized(syscall_nr: u64, ep_id: u64) -> bool {
    if 1 <= syscall_nr <= 3 {
        ep_id < CAP_ENDPOINTS
    } else {
        syscall_nr <= 13
    }
}

/// The capability bits that `(syscall_nr, ep_id)` needs.  Task exit
/// needs none.  A pair that is not recognized needs what no task has:
/// [`CAP_UNSATISFIABLE`], never the empty requirement.
pub open spec fn required_bits(syscall_nr: u64, ep_id: u64) -> CapBits {
    if syscall_nr == 0 {
        CAP_YIELD
    } else if syscall_nr == 1 {
        send_cap(ep_id)
    } else if syscall_nr == 2 {
        recv_cap(ep_id)
    } else if syscall_nr == 3 {
        send_cap(ep_id) | recv_cap(ep_id)
    } else if syscall_nr == 4 {
        CAP_WRITE
    } else if syscall_nr == 5 {
        CAP_NOTIFY
    } else if syscall_nr == 6 {
        CAP_WAIT_NOTIFY
    } else if syscall_nr == 7 {
        CAP_GRANT_CREATE
    } else if syscall_nr == 8 {
        CAP_GRANT_REVOKE
    } else if syscall_nr == 9 {
        CAP_IRQ_BIND
    } else if syscall_nr == 10 {
        CAP_IRQ_ACK
    } else if syscall_nr == 11 {
        CAP_DEVICE_MAP
    } else if syscall_nr == 12 {
        CAP_HEARTBEAT
    } else if syscall_nr == 13 {
        0
    } else {
        CAP_UNSATISFIABLE
    }
}

/// What the kernel decides: the call is allowed when the pair is recognized
/// and the caller's mask covers the bits it needs.
pub open spec fn syscall_allowed(caps: CapBits, syscall_nr: u64, ep_id: u64) -> bool {
    syscall_recognized(syscall_nr, ep_id) && covers(caps, required_bits(syscall_nr, ep_id))
}

/// Map a syscall number and endpoint to the required capability bits.
///
/// For an unknown syscall number, and for a send, receive or call on an
/// endpoint that does not exist, the result is [`CAP_UNSATISFIABLE`]: it
/// is not zero, and [`cap_check`] fails on it for every mask made of
/// capabilities that exist.  Task exit needs no capability.
pub fn cap_for_syscall(syscall_nr: u64, ep_id: u64) -> (required: CapBits)
    ensures
        required == required_bits(syscall_nr, ep_id),
        !syscall_recognized(syscall_nr, ep_id) ==> required == CAP_UNSATISFIABLE && required != 0
            && forall|caps: CapBits| caps & !CAP_ALL == 0 ==> !covers(caps, required),
        syscall_recognized(syscall_nr, ep_id) ==> required & !CAP_ALL == 0,
{
    proof {
        lemma_required_bits_bounded(syscall_nr, ep_id);
        lemma_unsatisfiable();
    }
    match syscall_nr {
        0 => CAP_YIELD,
        1 => match ep_id {
            0 => CAP_IPC_SEND_EP0,
            1 => CAP_IPC_SEND_EP1,
            2 => CAP_IPC_SEND_EP2,
            3 => CAP_IPC_SEND_EP3,
            _ => CAP_UNSATISFIABLE,
        },
        2 => match ep_id {
            0 => CAP_IPC_RECV_EP0,
            1 => CAP_IPC_RECV_EP1,
            2 => CAP_IPC_RECV_EP2,
            3 => CAP_IPC_RECV_EP3,
            _ => CAP_UNSATISFIABLE,
        },
        3 => match ep_id {
            0 => CAP_IPC_SEND_EP0 | CAP_IPC_RECV_EP0,
            1 => CAP_IPC_SEND_EP1 | CAP_IPC_RECV_EP1,
            2 => CAP_IPC_SEND_EP2 | CAP_IPC_RECV_EP2,
            3 => CAP_IPC_SEND_EP3 | CAP_IPC_RECV_EP3,
            _ => {
                assert((1u64 << 63) | (1u64 << 63) == 1u64 << 63) by (bit_vector);
                CAP_UNSATISFIABLE
            },
        },
        4 => CAP_WRITE,
        5 => CAP_NOTIFY,
        6 => CAP_WAIT_NOTIFY,
        7 => CAP_GRANT_CREATE,
        8 => CAP_GRANT_REVOKE,
        9 => CAP_IRQ_BIND,
        10 => CAP_IRQ_ACK,
        11 => CAP_DEVICE_MAP,
        12 => CAP_HEARTBEAT,
        13 => 0,
        _ => CAP_UNSATISFIABLE,
    }
}

/// The requirement of `(syscall_nr, ep_id)` as the syscall entry uses it: `None`
/// for a pair that no capability can satisfy, otherwise the exact bits.
pub fn required_capability(syscall_nr: u64, ep_id: u64) -> (required: Option<CapBits>)
    ensures
        required.is_some() == syscall_recognized(syscall_nr, ep_id),
        required matches Some(bits) ==> bits == required_bits(syscall_nr, ep_id),
{
    if syscall_nr >= 1 && syscall_nr <= 3 {
        if ep_id < CAP_ENDPOINTS {
            Some(cap_for_syscall(syscall_nr, ep_id))
        } else {
            None
        }
    } else if syscall_nr <= 13 {
        Some(cap_for_syscall(syscall_nr, ep_id))
    } else {
        None
    }
}

/// The requirement of a call is the union of the requirements of a send
/// and of a receive on the same endpoint, whatever the endpoint.
pub proof fn lemma_call_needs_send_and_recv(ep_id: u64)
    ensures
        required_bits(3, ep_id) == required_bits(1, ep_id) | required_bits(2, ep_id),
        syscall_recognized(3, ep_id) == (syscall_recognized(1, ep_id) && syscall_recognized(
            2,
            ep_id,
        )),
        forall|caps: CapBits|
            covers(caps, required_bits(3, ep_id)) == (covers(caps, required_bits(1, ep_id))
                && covers(caps, required_bits(2, ep_id))),
{
    let s = required_bits(1, ep_id);
    let r = required_bits(2, ep_id);
    assert forall|caps: CapBits| covers(caps, s | r) == (covers(caps, s) && covers(caps, r)) by {
        lemma_covers_is_subset(caps, s | r);
        lemma_covers_is_subset(caps, s);
        lemma_covers_is_subset(caps, r);
        assert((caps & (s | r) == (s | r)) == ((caps & s == s) && (caps & r == r)))
            by (bit_vector);
    }
}

/// Every recognized pair needs only bits that exist, and a pair that is
/// not recognized needs the bit that does not.
pub proof fn lemma_required_bits_bounded(syscall_nr: u64, ep_id: u64)
    ensures
        syscall_recognized(syscall_nr, ep_id) ==> required_bits(syscall_nr, ep_id) & !CAP_ALL == 0,
        !syscall_recognized(syscall_nr, ep_id) ==> required_bits(syscall_nr, ep_id)
            == CAP_UNSATISFIABLE,
{
    let b = required_bits(syscall_nr, ep_id);
    assert(CAP_ALL == 0x3_FFFF) by (bit_vector);
    assert((1u64 << 63) | (1u64 << 63) == 1u64 << 63) by (bit_vector);
    if syscall_recognized(syscall_nr, ep_id) {
        assert(b & !0x3_FFFFu64 == 0) by (bit_vector)
            requires
                b == 1u64 << 0 || b == 1u64 << 1 || b == 1u64 << 2 || b == 1u64 << 3 || b == 1u64
                    << 4 || b == 1u64 << 5 || b == 1u64 << 6 || b == 1u64 << 7 || b == 1u64 << 8
                    || b == 1u64 << 9 || b == 1u64 << 10 || b == 1u64 << 11 || b == 1u64 << 12
                    || b == 1u64 << 13 || b == 1u64 << 14 || b == 1u64 << 15 || b == 1u64 << 16
                    || b == 1u64 << 17 || b == (1u64 << 0) | (1u64 << 1) || b == (1u64 << 2) | (
                1u64 << 3) || b == (1u64 << 8) | (1u64 << 9) || b == (1u64 << 10) | (1u64 << 11)
                    || b == 0,
        ;
    }
}

/// No mask made of capabilities that exist satisfies the requirement of
/// an operation that does not exist, and that requirement is not empty.
pub proof fn lemma_unsatisfiable()
    ensures
        CAP_UNSATISFIABLE != 0,
        CAP_UNSATISFIABLE & CAP_ALL == 0,
        forall|caps: CapBits| caps & !CAP_ALL == 0 ==> !covers(caps, CAP_UNSATISFIABLE),
{
    assert(CAP_ALL == 0x3_FFFF) by (bit_vector);
    assert((1u64 << 63) != 0 && (1u64 << 63) & 0x3_FFFFu64 == 0) by (bit_vector);
    assert forall|caps: CapBits| caps & !CAP_ALL == 0 implies !covers(caps, CAP_UNSATISFIABLE) by {
        lemma_covers_is_subset(caps, CAP_UNSATISFIABLE);
        assert(caps & (1u64 << 63) != (1u64 << 63)) by (bit_vector)
            requires
                caps & !0x3_FFFFu64 == 0,
        ;
    }
}

/// The name of a capability mask: that of the single bit it holds, `ALL`,
/// `NONE`, or `UNKNOWN` for any other combination.
pub open spec fn cap_name_of(cap: CapBits) -> Seq<char> {
    if cap == CAP_IPC_SEND_EP0 {
        "IPC_SEND_EP0"@
    } else if cap == CAP_IPC_RECV_EP0 {
        "IPC_RECV_EP0"@
    } else if cap == CAP_IPC_SEND_EP1 {
        "IPC_SEND_EP1"@
    } else if cap == CAP_IPC_RECV_EP1 {
        "IPC_RECV_EP1"@
    } else if cap == CAP_WRITE {
        "WRITE"@
    } else if cap == CAP_YIELD {
        "YIELD"@
    } else if cap == CAP_NOTIFY {
        "NOTIFY"@
    } else if cap == CAP_WAIT_NOTIFY {
        "WAIT_NOTIFY"@
    } else if cap == CAP_IPC_SEND_EP2 {
        "IPC_SEND_EP2"@
    } else if cap == CAP_IPC_RECV_EP2 {
        "IPC_RECV_EP2"@
    } else if cap == CAP_IPC_SEND_EP3 {
        "IPC_SEND_EP3"@
    } else if cap == CAP_IPC_RECV_EP3 {
        "IPC_RECV_EP3"@
    } else if cap == CAP_GRANT_CREATE {
        "GRANT_CREATE"@
    } else if cap == CAP_GRANT_REVOKE {
        "GRANT_REVOKE"@
    } else if cap == CAP_IRQ_BIND {
        "IRQ_BIND"@
    } else if cap == CAP_IRQ_ACK {
        "IRQ_ACK"@
    } else if cap == CAP_DEVICE_MAP {
        "DEVICE_MAP"@
    } else if cap == CAP_HEARTBEAT {
        "HEARTBEAT"@
    } else if cap == CAP_ALL {
        "ALL"@
    } else if cap == CAP_NONE {
        "NONE"@
    } else {
        "UNKNOWN"@
    }
}

/// Return a human-readable name for a single capability bit.
pub fn cap_name(cap: CapBits) -> (name: &'static str)
    ensures
        name@ == cap_name_of(cap),
{
    if cap == CAP_IPC_SEND_EP0 {
        "IPC_SEND_EP0"
    } else if cap == CAP_IPC_RECV_EP0 {
        "IPC_RECV_EP0"
    } else if cap == CAP_IPC_SEND_EP1 {
        "IPC_SEND_EP1"
    } else if cap == CAP_IPC_RECV_EP1 {
        "IPC_RECV_EP1"
    } else if cap == CAP_WRITE {
        "WRITE"
    } else if cap == CAP_YIELD {
        "YIELD"
    } else if cap == CAP_NOTIFY {
        "NOTIFY"
    } else if cap == CAP_WAIT_NOTIFY {
        "WAIT_NOTIFY"
    } else if cap == CAP_IPC_SEND_EP2 {
        "IPC_SEND_EP2"
    } else if cap == CAP_IPC_RECV_EP2 {
        "IPC_RECV_EP2"
    } else if cap == CAP_IPC_SEND_EP3 {
        "IPC_SEND_EP3"
    } else if cap == CAP_IPC_RECV_EP3 {
        "IPC_RECV_EP3"
    } else if cap == CAP_GRANT_CREATE {
        "GRANT_CREATE"
    } else if cap == CAP_GRANT_REVOKE {
        "GRANT_REVOKE"
    } else if cap == CAP_IRQ_BIND {
        "IRQ_BIND"
    } else if cap == CAP_IRQ_ACK {
        "IRQ_ACK"
    } else if cap == CAP_DEVICE_MAP {
        "DEVICE_MAP"
    } else if cap == CAP_HEARTBEAT {
        "HEARTBEAT"
    } else if cap == CAP_ALL {
        "ALL"
    } else if cap == CAP_NONE {
        "NONE"
    } else {
        "UNKNOWN"
    }
}

/// A mask covers a requirement exactly when and-ing the two gives the
/// requirement back.
pub proof fn lemma_covers_is_subset(caps: u64, required: u64)
    ensures
        covers(caps, required) == (caps & required == required),
{
    if caps & required == required {
        assert forall|i: u64| i < 64 && has_bit(required, i) implies has_bit(caps, i) by {
            assert(((required >> i) & 1 == 1) ==> ((caps >> i) & 1 == 1)) by (bit_vector)
                requires
                    caps & required == required,
                    i < 64,
            ;
        }
    } else {
        let i = missing_bit(caps, required);
        lemma_missing_bit(caps, required);
        assert(has_bit(required, i) && !has_bit(caps, i));
    }
}

/// The empty requirement is met by every mask, the empty mask too.
pub proof fn lemma_empty_requirement(caps: u64)
    ensures
        covers(caps, 0),
        caps & 0 == 0,
{
    assert(caps & 0 == 0) by (bit_vector);
    lemma_covers_is_subset(caps, 0);
}

/// Index of the lowest bit that `required` holds and `caps` lacks.
pub open spec fn missing_bit(caps: u64, required: u64) -> u64 {
    lowest_bit(required & !caps, 0)
}

pub open spec fn lowest_bit(m: u64, from: u64) -> u64
    decreases 64 - from,
{
    if from >= 64 {
        64
    } else if (m >> from) & 1 == 1 {
        from
    } else {
        lowest_bit(m, (from + 1) as u64)
    }
}

proof fn lemma_lowest_bit(m: u64, from: u64)
    requires
        from <= 64,
        m >> from != 0 || from == 64,
    ensures
        from < 64 ==> lowest_bit(m, from) < 64 && (m >> lowest_bit(m, from)) & 1 == 1,
    decreases 64 - from,
{
    if from < 64 {
        if (m >> from) & 1 == 1 {
        } else {
            let next = (from + 1) as u64;
            assert(next == 64 || m >> next != 0) by (bit_vector)
                requires
                    from < 64,
                    next == from + 1,
                    m >> from != 0,
                    (m >> from) & 1 != 1,
            ;
            assert(next < 64) by (bit_vector)
                requires
                    from < 64,
                    next == from + 1,
                    m >> from != 0,
                    (m >> from) & 1 != 1,
            ;
            lemma_lowest_bit(m, next);
        }
    }
}

proof fn lemma_missing_bit(caps: u64, required: u64)
    requires
        caps & required != required,
    ensures
        missing_bit(caps, required) < 64,
        has_bit(required, missing_bit(caps, required)),
        !has_bit(caps, missing_bit(caps, required)),
{
    let m = required & !caps;
    assert(m >> 0 != 0) by (bit_vector)
        requires
            caps & required != required,
            m == required & !caps,
    ;
    lemma_lowest_bit(m, 0);
    let i = lowest_bit(m, 0);
    assert(((required >> i) & 1 == 1) && ((caps >> i) & 1 != 1)) by (bit_vector)
        requires
            i < 64,
            m == required & !caps,
            (m >> i) & 1 == 1,
    ;
}

} // verus!
