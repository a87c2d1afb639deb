#![allow(unused_imports, unused_mut, unused_variables, dead_code)]

use aegis_os::cap::{
    self, CAP_ALL, CAP_DEVICE_MAP, CAP_GRANT_CREATE, CAP_GRANT_REVOKE, CAP_HEARTBEAT,
    CAP_IPC_RECV_EP0, CAP_IPC_RECV_EP1, CAP_IPC_RECV_EP2, CAP_IPC_RECV_EP3, CAP_IPC_SEND_EP0,
    CAP_IPC_SEND_EP1, CAP_IPC_SEND_EP2, CAP_IPC_SEND_EP3, CAP_IRQ_ACK, CAP_IRQ_BIND, CAP_NONE,
    CAP_NOTIFY, CAP_WAIT_NOTIFY, CAP_WRITE, CAP_YIELD,
};
use aegis_os::exception::TrapFrame;
use aegis_os::sched::{empty_tcb, TaskState};

use aegis_os::state::Kernel;

/// A kernel in a clean state: every task Ready with its id, fake stack
/// and entry addresses; task 0 running; all tables empty; tick zero.
fn reset_test_state() -> Kernel {
    let mut k = Kernel::new();
    for i in 0..aegis_os::sched::NUM_TASKS {
        k.tcbs[i] = aegis_os::sched::empty_tcb();
        k.tcbs[i].id = i as u16;
        k.tcbs[i].state = aegis_os::sched::TaskState::Ready;
        k.tcbs[i].user_stack_top = 0x5000_0000 + ((i as u64 + 1) * 4096);
        k.tcbs[i].entry_point = 0x4008_0000 + (i as u64 * 0x100);
        k.tcbs[i].ttbr0 = 0;
        k.tcbs[i].notify_pending = 0;
        k.tcbs[i].notify_waiting = false;
    }
    k.current = 0;
    k.tcbs[0].state = aegis_os::sched::TaskState::Running;
    for i in 0..aegis_os::ipc::MAX_ENDPOINTS {
        k.endpoints[i] = aegis_os::ipc::empty_ep();
    }
    k.tick_count = 0;
    for i in 0..aegis_os::grant::MAX_GRANTS {
        k.grants[i] = aegis_os::grant::empty_grant();
    }
    for i in 0..aegis_os::irq::MAX_IRQ_BINDINGS {
        k.irq_bindings[i] = aegis_os::irq::empty_binding();
    }
    k
}

#[test]
fn cap_bits_are_distinct_powers_of_two() {
    let all = [
        CAP_IPC_SEND_EP0, CAP_IPC_RECV_EP0,
        CAP_IPC_SEND_EP1, CAP_IPC_RECV_EP1,
        CAP_WRITE, CAP_YIELD,
        CAP_NOTIFY, CAP_WAIT_NOTIFY,
        CAP_IPC_SEND_EP2, CAP_IPC_RECV_EP2,
        CAP_IPC_SEND_EP3, CAP_IPC_RECV_EP3,
        CAP_GRANT_CREATE, CAP_GRANT_REVOKE,
        CAP_IRQ_BIND, CAP_IRQ_ACK,
        CAP_DEVICE_MAP,
        CAP_HEARTBEAT,
    ];
    // Each must be a single bit (power of 2)
    for &c in &all {
        assert!(c != 0, "cap must be nonzero");
        assert!(c & (c - 1) == 0, "cap 0x{:x} is not a power of 2", c);
    }
    // All must be distinct
    for i in 0..all.len() {
        for j in (i + 1)..all.len() {
            assert_ne!(all[i], all[j], "caps at index {} and {} collide", i, j);
        }
    }
}

#[test]
fn cap_all_includes_every_bit() {
    assert!(cap::cap_check(CAP_ALL, CAP_IPC_SEND_EP0));
    assert!(cap::cap_check(CAP_ALL, CAP_IPC_RECV_EP0));
    assert!(cap::cap_check(CAP_ALL, CAP_IPC_SEND_EP1));
    assert!(cap::cap_check(CAP_ALL, CAP_IPC_RECV_EP1));
    assert!(cap::cap_check(CAP_ALL, CAP_WRITE));
    assert!(cap::cap_check(CAP_ALL, CAP_YIELD));
    assert!(cap::cap_check(CAP_ALL, CAP_NOTIFY));
    assert!(cap::cap_check(CAP_ALL, CAP_WAIT_NOTIFY));
    assert!(cap::cap_check(CAP_ALL, CAP_IPC_SEND_EP2));
    assert!(cap::cap_check(CAP_ALL, CAP_IPC_RECV_EP2));
    assert!(cap::cap_check(CAP_ALL, CAP_IPC_SEND_EP3));
    assert!(cap::cap_check(CAP_ALL, CAP_IPC_RECV_EP3));
    assert!(cap::cap_check(CAP_ALL, CAP_GRANT_CREATE));
    assert!(cap::cap_check(CAP_ALL, CAP_GRANT_REVOKE));
    assert!(cap::cap_check(CAP_ALL, CAP_IRQ_BIND));
    assert!(cap::cap_check(CAP_ALL, CAP_IRQ_ACK));
    assert!(cap::cap_check(CAP_ALL, CAP_DEVICE_MAP));
    assert!(cap::cap_check(CAP_ALL, CAP_HEARTBEAT));
}

#[test]
fn cap_none_grants_nothing() {
    assert!(!cap::cap_check(CAP_NONE, CAP_IPC_SEND_EP0));
    assert!(!cap::cap_check(CAP_NONE, CAP_WRITE));
    assert!(!cap::cap_check(CAP_NONE, CAP_YIELD));
}

#[test]
fn cap_check_single_bit() {
    let caps = CAP_WRITE | CAP_YIELD;
    assert!(cap::cap_check(caps, CAP_WRITE));
    assert!(cap::cap_check(caps, CAP_YIELD));
    assert!(!cap::cap_check(caps, CAP_IPC_SEND_EP0));
}

#[test]
fn cap_check_multi_bit_requirement() {
    let caps = CAP_IPC_SEND_EP0 | CAP_IPC_RECV_EP0;
    // Has both → ok
    assert!(cap::cap_check(caps, CAP_IPC_SEND_EP0 | CAP_IPC_RECV_EP0));
    // Has only send, needs both → fail
    let only_send = CAP_IPC_SEND_EP0;
    assert!(!cap::cap_check(only_send, CAP_IPC_SEND_EP0 | CAP_IPC_RECV_EP0));
}

#[test]
fn cap_check_zero_required_always_passes() {
    // Requiring nothing → always passes (even with CAP_NONE)
    assert!(cap::cap_check(CAP_NONE, 0));
    assert!(cap::cap_check(CAP_ALL, 0));
}

#[test]
fn cap_for_syscall_yield() {
    assert_eq!(cap::cap_for_syscall(0, 0), CAP_YIELD);
    assert_eq!(cap::cap_for_syscall(0, 99), CAP_YIELD); // ep_id ignored for yield
}

#[test]
fn cap_for_syscall_send_recv() {
    assert_eq!(cap::cap_for_syscall(1, 0), CAP_IPC_SEND_EP0);
    assert_eq!(cap::cap_for_syscall(1, 1), CAP_IPC_SEND_EP1);
    assert_eq!(cap::cap_for_syscall(1, 2), CAP_IPC_SEND_EP2);
    assert_eq!(cap::cap_for_syscall(1, 3), CAP_IPC_SEND_EP3);
    assert_eq!(cap::cap_for_syscall(2, 0), CAP_IPC_RECV_EP0);
    assert_eq!(cap::cap_for_syscall(2, 1), CAP_IPC_RECV_EP1);
    assert_eq!(cap::cap_for_syscall(2, 2), CAP_IPC_RECV_EP2);
    assert_eq!(cap::cap_for_syscall(2, 3), CAP_IPC_RECV_EP3);
}

#[test]
fn cap_for_syscall_call_needs_both() {
    // SYS_CALL on EP0 needs SEND+RECV
    let required = cap::cap_for_syscall(3, 0);
    assert_eq!(required, CAP_IPC_SEND_EP0 | CAP_IPC_RECV_EP0);
    // SYS_CALL on EP1
    let required1 = cap::cap_for_syscall(3, 1);
    assert_eq!(required1, CAP_IPC_SEND_EP1 | CAP_IPC_RECV_EP1);
    // SYS_CALL on EP2
    let required2 = cap::cap_for_syscall(3, 2);
    assert_eq!(required2, CAP_IPC_SEND_EP2 | CAP_IPC_RECV_EP2);
    // SYS_CALL on EP3
    let required3 = cap::cap_for_syscall(3, 3);
    assert_eq!(required3, CAP_IPC_SEND_EP3 | CAP_IPC_RECV_EP3);
}

#[test]
fn cap_for_syscall_write() {
    assert_eq!(cap::cap_for_syscall(4, 0), CAP_WRITE);
}

#[test]
fn cap_for_syscall_invalid_returns_zero() {
    // An operation that does not exist needs what no task has: never
    // the empty requirement, which every mask satisfies.
    // Unknown syscall
    assert_eq!(cap::cap_for_syscall(99, 0), cap::CAP_UNSATISFIABLE);
    // Invalid endpoint for IPC
    assert_eq!(cap::cap_for_syscall(1, 5), cap::CAP_UNSATISFIABLE);
    assert_eq!(cap::cap_for_syscall(2, 5), cap::CAP_UNSATISFIABLE);
    assert_eq!(cap::cap_for_syscall(3, 5), cap::CAP_UNSATISFIABLE);
    assert_ne!(cap::CAP_UNSATISFIABLE, 0);
}

#[test]
fn unknown_operations_are_never_authorized() {
    assert_eq!(cap::CAP_UNSATISFIABLE, 1 << 63);
    assert_eq!(cap::CAP_UNSATISFIABLE & CAP_ALL, 0);
    for nr in [14u64, 15, 99, u64::MAX] {
        assert_eq!(cap::cap_for_syscall(nr, 0), cap::CAP_UNSATISFIABLE);
    }
    for nr in 1..=3u64 {
        for ep in [4u64, 5, 99, u64::MAX] {
            let required = cap::cap_for_syscall(nr, ep);
            assert_ne!(required, 0);
            assert!(!cap::cap_check(CAP_ALL, required));
            assert!(!cap::cap_check(CAP_NONE, required));
            assert!(!cap::cap_check(CAP_IPC_SEND_EP0 | CAP_IPC_RECV_EP0, required));
        }
    }
    assert!(!cap::cap_check(CAP_ALL, cap::cap_for_syscall(99, 0)));
    // every operation that exists is within reach of the full mask
    for nr in 0..=13u64 {
        for ep in 0..4u64 {
            assert!(cap::cap_check(CAP_ALL, cap::cap_for_syscall(nr, ep)));
        }
    }
    // leaving needs no capability
    assert_eq!(cap::cap_for_syscall(13, 0), 0);
    assert!(cap::cap_check(CAP_NONE, cap::cap_for_syscall(13, 7)));
    assert_eq!(cap::cap_name(cap::CAP_UNSATISFIABLE), "UNKNOWN");
}

#[test]
fn cap_name_returns_expected_strings() {
    assert_eq!(cap::cap_name(CAP_IPC_SEND_EP0), "IPC_SEND_EP0");
    assert_eq!(cap::cap_name(CAP_IPC_RECV_EP0), "IPC_RECV_EP0");
    assert_eq!(cap::cap_name(CAP_WRITE), "WRITE");
    assert_eq!(cap::cap_name(CAP_YIELD), "YIELD");
    assert_eq!(cap::cap_name(CAP_NOTIFY), "NOTIFY");
    assert_eq!(cap::cap_name(CAP_WAIT_NOTIFY), "WAIT_NOTIFY");
    assert_eq!(cap::cap_name(CAP_IPC_SEND_EP2), "IPC_SEND_EP2");
    assert_eq!(cap::cap_name(CAP_IPC_RECV_EP2), "IPC_RECV_EP2");
    assert_eq!(cap::cap_name(CAP_IPC_SEND_EP3), "IPC_SEND_EP3");
    assert_eq!(cap::cap_name(CAP_IPC_RECV_EP3), "IPC_RECV_EP3");
    assert_eq!(cap::cap_name(CAP_ALL), "ALL");
    assert_eq!(cap::cap_name(CAP_NONE), "NONE");
    assert_eq!(cap::cap_name(0xDEAD_BEEF), "UNKNOWN");
}

#[test]
fn cap_empty_tcb_has_zero_caps() {
    assert_eq!(empty_tcb().caps, 0);
}

#[test]
fn cap_survives_restart_simulation() {
    // Simulate: assign caps to a task, then "restart" it (reset context
    // fields like restart_task does, but don't touch caps).
    {
        let mut k = reset_test_state();
        let original_caps = CAP_IPC_SEND_EP0 | CAP_WRITE | CAP_YIELD;
        k.tcbs[0].caps = original_caps;
        k.tcbs[0].state = TaskState::Faulted;
        k.tcbs[0].fault_tick = 0;

        // Simulate what restart_task() does: zero context, reload entry/stack
        k.tcbs[0].context = TrapFrame {
            x: [0; 31],
            sp_el0: k.tcbs[0].user_stack_top,
            elr_el1: k.tcbs[0].entry_point,
            spsr_el1: 0x000,
            _pad: [0; 2],
        };
        k.tcbs[0].state = TaskState::Ready;

        // Caps must still be the original value
        assert_eq!(k.tcbs[0].caps, original_caps,
            "caps must survive task restart");
    }
}

#[test]
fn cap_for_syscall_ep2_ep3() {
    assert_eq!(cap::cap_for_syscall(1, 2), CAP_IPC_SEND_EP2);
    assert_eq!(cap::cap_for_syscall(2, 2), CAP_IPC_RECV_EP2);
    assert_eq!(cap::cap_for_syscall(3, 2), CAP_IPC_SEND_EP2 | CAP_IPC_RECV_EP2);
    assert_eq!(cap::cap_for_syscall(1, 3), CAP_IPC_SEND_EP3);
    assert_eq!(cap::cap_for_syscall(2, 3), CAP_IPC_RECV_EP3);
    assert_eq!(cap::cap_for_syscall(3, 3), CAP_IPC_SEND_EP3 | CAP_IPC_RECV_EP3);
}

#[test]
fn cap_for_syscall_grant() {
    assert_eq!(cap::cap_for_syscall(7, 0), CAP_GRANT_CREATE);
    assert_eq!(cap::cap_for_syscall(8, 0), CAP_GRANT_REVOKE);
}

#[test]
fn cap_all_includes_grants() {
    assert_ne!(CAP_ALL & CAP_GRANT_CREATE, 0, "CAP_ALL should include GRANT_CREATE");
    assert_ne!(CAP_ALL & CAP_GRANT_REVOKE, 0, "CAP_ALL should include GRANT_REVOKE");
}

#[test]
fn cap_for_syscall_irq() {
    assert_eq!(cap::cap_for_syscall(9, 0), CAP_IRQ_BIND);
    assert_eq!(cap::cap_for_syscall(10, 0), CAP_IRQ_ACK);
}

#[test]
fn cap_all_includes_irq() {
    assert_ne!(CAP_ALL & CAP_IRQ_BIND, 0, "CAP_ALL should include IRQ_BIND");
    assert_ne!(CAP_ALL & CAP_IRQ_ACK, 0, "CAP_ALL should include IRQ_ACK");
}

#[test]
fn cap_for_syscall_device_map() {
    assert_eq!(cap::cap_for_syscall(11, 0), CAP_DEVICE_MAP);
}

#[test]
fn cap_all_includes_device_map() {
    assert_ne!(CAP_ALL & CAP_DEVICE_MAP, 0, "CAP_ALL should include DEVICE_MAP");
}

#[test]
fn cap_heartbeat_bit_is_power_of_two() {
    assert!(CAP_HEARTBEAT != 0);
    assert_eq!(CAP_HEARTBEAT & (CAP_HEARTBEAT - 1), 0);
}

#[test]
fn cap_heartbeat_is_bit_17() {
    assert_eq!(CAP_HEARTBEAT, 1 << 17);
}

#[test]
fn cap_all_includes_heartbeat() {
    assert_ne!(CAP_ALL & CAP_HEARTBEAT, 0, "CAP_ALL should include HEARTBEAT");
}

#[test]
fn cap_for_syscall_heartbeat() {
    assert_eq!(cap::cap_for_syscall(12, 0), CAP_HEARTBEAT);
    assert_eq!(cap::cap_for_syscall(12, 99), CAP_HEARTBEAT); // ep_id ignored
}

#[test]
fn cap_name_heartbeat() {
    assert_eq!(cap::cap_name(CAP_HEARTBEAT), "HEARTBEAT");
}

#[test]
fn cap_name_all_missing_arms() {
    // Cover the 7 cap_name match arms missed by existing tests
    assert_eq!(cap::cap_name(CAP_IPC_SEND_EP1), "IPC_SEND_EP1");
    assert_eq!(cap::cap_name(CAP_IPC_RECV_EP1), "IPC_RECV_EP1");
    assert_eq!(cap::cap_name(CAP_GRANT_CREATE), "GRANT_CREATE");
    assert_eq!(cap::cap_name(CAP_GRANT_REVOKE), "GRANT_REVOKE");
    assert_eq!(cap::cap_name(CAP_IRQ_BIND), "IRQ_BIND");
    assert_eq!(cap::cap_name(CAP_IRQ_ACK), "IRQ_ACK");
    assert_eq!(cap::cap_name(CAP_DEVICE_MAP), "DEVICE_MAP");
    assert_eq!(cap::cap_name(CAP_HEARTBEAT), "HEARTBEAT");
}

#[test]
fn cap_for_syscall_all_endpoints() {
    // Exhaustive test for all 4 endpoints × send/recv
    // EP0
    assert_eq!(cap::cap_for_syscall(1, 0), CAP_IPC_SEND_EP0);
    assert_eq!(cap::cap_for_syscall(2, 0), CAP_IPC_RECV_EP0);
    // EP1
    assert_eq!(cap::cap_for_syscall(1, 1), CAP_IPC_SEND_EP1);
    assert_eq!(cap::cap_for_syscall(2, 1), CAP_IPC_RECV_EP1);
    // EP2
    assert_eq!(cap::cap_for_syscall(1, 2), CAP_IPC_SEND_EP2);
    assert_eq!(cap::cap_for_syscall(2, 2), CAP_IPC_RECV_EP2);
    // EP3
    assert_eq!(cap::cap_for_syscall(1, 3), CAP_IPC_SEND_EP3);
    assert_eq!(cap::cap_for_syscall(2, 3), CAP_IPC_RECV_EP3);
    // CALL = send + recv combined
    assert_eq!(cap::cap_for_syscall(3, 0), CAP_IPC_SEND_EP0 | CAP_IPC_RECV_EP0);
    assert_eq!(cap::cap_for_syscall(3, 1), CAP_IPC_SEND_EP1 | CAP_IPC_RECV_EP1);
    assert_eq!(cap::cap_for_syscall(3, 2), CAP_IPC_SEND_EP2 | CAP_IPC_RECV_EP2);
    assert_eq!(cap::cap_for_syscall(3, 3), CAP_IPC_SEND_EP3 | CAP_IPC_RECV_EP3);
}

#[test]
fn cap_for_syscall_grant_irq_device() {
    assert_eq!(cap::cap_for_syscall(7, 0), CAP_GRANT_CREATE);
    assert_eq!(cap::cap_for_syscall(8, 0), CAP_GRANT_REVOKE);
    assert_eq!(cap::cap_for_syscall(9, 0), CAP_IRQ_BIND);
    assert_eq!(cap::cap_for_syscall(10, 0), CAP_IRQ_ACK);
    assert_eq!(cap::cap_for_syscall(11, 0), CAP_DEVICE_MAP);
    assert_eq!(cap::cap_for_syscall(12, 0), CAP_HEARTBEAT);
}
