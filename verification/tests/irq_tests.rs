#![allow(unused_imports, unused_mut, unused_variables, dead_code)]

use aegis_os::irq::{self, MAX_IRQ_BINDINGS};
use aegis_os::sched::TaskState;

use aegis_os::state::Kernel;

/// A kernel in a clean state: every task Ready with its id, fake stack
/// and entry addresses; task 0 running; all tables empty; tick zero.
fn reset_test_state() -> Kernel {
    let mut k = Kernel::new();
    for i in 0..aegis_os::sched::NUM_TASKS {
        k.tcbs[i] = aegis_os::sched::empty_tcb();
        k.tcbs[i].id = i as u16;
        k.tcbs[i].state = aegis_os::sched::TaskState::Ready;
        k.tcbs[i].user_stack_top = 0x5000_0000 + ((i as u64 + 1) * 4096);
        k.tcbs[i].entry_point = 0x4008_0000 + (i as u64 * 0x100);
        k.tcbs[i].ttbr0 = 0;
        k.tcbs[i].notify_pending = 0;
        k.tcbs[i].notify_waiting = false;
    }
    k.current = 0;
    k.tcbs[0].state = aegis_os::sched::TaskState::Running;
    for i in 0..aegis_os::ipc::MAX_ENDPOINTS {
        k.endpoints[i] = aegis_os::ipc::empty_ep();
    }
    k.tick_count = 0;
    for i in 0..aegis_os::grant::MAX_GRANTS {
        k.grants[i] = aegis_os::grant::empty_grant();
    }
    for i in 0..aegis_os::irq::MAX_IRQ_BINDINGS {
        k.irq_bindings[i] = aegis_os::irq::empty_binding();
    }
    k
}

#[test]
fn irq_bind_success() {
    {
        let mut k = reset_test_state();
        let r = irq::irq_bind(&mut k.irq_bindings, 33, 0, 0x01);
        assert_eq!(r, 0, "irq_bind should succeed for SPI INTID 33");
        assert!(k.irq_bindings[0].active);
        assert_eq!(k.irq_bindings[0].intid, 33);
        assert_eq!(k.irq_bindings[0].task_id, 0);
        assert_eq!(k.irq_bindings[0].notify_bit, 0x01);
        assert!(!k.irq_bindings[0].pending_ack);
    }
}

#[test]
fn irq_bind_reject_ppi() {
    {
        let mut k = reset_test_state();
        // INTID < 32 is PPI/SGI range, must be rejected
        let r = irq::irq_bind(&mut k.irq_bindings, 30, 0, 0x01); // timer INTID
        assert_eq!(r, irq::ERR_INVALID_INTID);
        let r2 = irq::irq_bind(&mut k.irq_bindings, 15, 0, 0x01);
        assert_eq!(r2, irq::ERR_INVALID_INTID);
    }
}

#[test]
fn irq_bind_reject_zero_bit() {
    {
        let mut k = reset_test_state();
        let r = irq::irq_bind(&mut k.irq_bindings, 33, 0, 0);
        assert_eq!(r, irq::ERR_INVALID_INTID, "notify_bit=0 should be rejected");
    }
}

#[test]
fn irq_bind_reject_duplicate() {
    {
        let mut k = reset_test_state();
        irq::irq_bind(&mut k.irq_bindings, 33, 0, 0x01);
        let r = irq::irq_bind(&mut k.irq_bindings, 33, 1, 0x02);
        assert_eq!(r, irq::ERR_ALREADY_BOUND, "duplicate INTID should be rejected");
    }
}

#[test]
fn irq_bind_table_full() {
    {
        let mut k = reset_test_state();
        // Fill all 8 slots
        for i in 0..MAX_IRQ_BINDINGS {
            let r = irq::irq_bind(&mut k.irq_bindings, 32 + i as u32, 0, 1u64 << i);
            assert_eq!(r, 0, "binding {} should succeed", i);
        }
        // 9th should fail
        let r = irq::irq_bind(&mut k.irq_bindings, 100, 0, 0x100);
        assert_eq!(r, irq::ERR_TABLE_FULL);
    }
}

#[test]
fn irq_ack_success() {
    {
        let mut k = reset_test_state();
        irq::irq_bind(&mut k.irq_bindings, 33, 0, 0x01);
        // Simulate IRQ fired: set pending_ack manually
        k.irq_bindings[0].pending_ack = true;
        let r = irq::irq_ack(&mut k.irq_bindings, 33, 0);
        assert_eq!(r, 0);
        assert!(!k.irq_bindings[0].pending_ack, "pending_ack should be cleared");
    }
}

#[test]
fn irq_ack_wrong_task() {
    {
        let mut k = reset_test_state();
        irq::irq_bind(&mut k.irq_bindings, 33, 0, 0x01);
        k.irq_bindings[0].pending_ack = true;
        let r = irq::irq_ack(&mut k.irq_bindings, 33, 1); // task 1 didn't bind this
        assert_eq!(r, irq::ERR_NOT_OWNER);
    }
}

#[test]
fn irq_ack_not_bound() {
    {
        let mut k = reset_test_state();
        let r = irq::irq_ack(&mut k.irq_bindings, 33, 0);
        assert_eq!(r, irq::ERR_NOT_BOUND);
    }
}

#[test]
fn irq_ack_already_acked_is_noop() {
    {
        let mut k = reset_test_state();
        irq::irq_bind(&mut k.irq_bindings, 33, 0, 0x01);
        // pending_ack is false (no IRQ fired)
        let r = irq::irq_ack(&mut k.irq_bindings, 33, 0);
        assert_eq!(r, 0, "ACK when not pending should be no-op success");
    }
}

#[test]
fn irq_route_sets_notify_pending() {
    {
        let mut k = reset_test_state();
        irq::irq_bind(&mut k.irq_bindings, 33, 0, 0x01);
        // The interrupt fires
        irq::irq_route_test(&mut k, 33, 0);
        assert_eq!(k.tcbs[0].notify_pending, 0x01,
            "notify_pending should have the bound bit set");
        assert!(k.irq_bindings[0].pending_ack, "pending_ack should be true");
    }
}

#[test]
fn irq_route_unblocks_waiting_task() {
    {
        let mut k = reset_test_state();
        irq::irq_bind(&mut k.irq_bindings, 33, 0, 0x01);
        // Task 0 is waiting for notifications
        k.tcbs[0].state = TaskState::Blocked;
        k.tcbs[0].notify_waiting = true;
        k.tcbs[0].notify_pending = 0;
        // Fire IRQ
        irq::irq_route_test(&mut k, 33, 0);
        assert_eq!(k.tcbs[0].state, TaskState::Ready, "task should be unblocked");
        assert!(!k.tcbs[0].notify_waiting, "notify_waiting should be cleared");
        assert_eq!(k.tcbs[0].context.x[0], 0x01, "delivered bits should be in x0");
        assert_eq!(k.tcbs[0].notify_pending, 0, "pending should be cleared after delivery");
    }
}

#[test]
fn irq_route_accumulates_bits() {
    {
        let mut k = reset_test_state();
        irq::irq_bind(&mut k.irq_bindings, 33, 0, 0x01);
        irq::irq_bind(&mut k.irq_bindings, 34, 0, 0x02);
        // Set pending_ack=false so we can route both (in practice kernel masks)
        irq::irq_route_test(&mut k, 33, 0);
        k.irq_bindings[0].pending_ack = false; // pretend ACK'd
        k.tcbs[0].notify_pending = 0x01; // kept from first route
        irq::irq_route_test(&mut k, 34, 0);
        // Both bits should be accumulated
        assert_eq!(k.tcbs[0].notify_pending, 0x01 | 0x02);
    }
}

#[test]
fn irq_cleanup_unbinds_all() {
    {
        let mut k = reset_test_state();
        irq::irq_bind(&mut k.irq_bindings, 33, 0, 0x01);
        irq::irq_bind(&mut k.irq_bindings, 34, 0, 0x02);
        k.irq_bindings[0].pending_ack = true;
        irq::irq_cleanup_task(&mut k.irq_bindings, 0);
        for i in 0..MAX_IRQ_BINDINGS {
            assert!(!k.irq_bindings[i].active,
                "binding {} should be inactive after cleanup", i);
        }
    }
}

#[test]
fn irq_cleanup_does_not_affect_other_tasks() {
    {
        let mut k = reset_test_state();
        irq::irq_bind(&mut k.irq_bindings, 33, 0, 0x01);
        irq::irq_bind(&mut k.irq_bindings, 34, 1, 0x02);
        irq::irq_cleanup_task(&mut k.irq_bindings, 0);
        assert!(!k.irq_bindings[0].active, "task 0 binding should be cleaned");
        assert!(k.irq_bindings[1].active, "task 1 binding should remain");
    }
}

#[test]
fn irq_rebind_after_cleanup() {
    {
        let mut k = reset_test_state();
        irq::irq_bind(&mut k.irq_bindings, 33, 0, 0x01);
        irq::irq_cleanup_task(&mut k.irq_bindings, 0);
        // Should be able to rebind same INTID to different task
        let r = irq::irq_bind(&mut k.irq_bindings, 33, 1, 0x04);
        assert_eq!(r, 0, "rebind after cleanup should succeed");
        assert_eq!(k.irq_bindings[0].task_id, 1);
    }
}
