#![allow(unused_imports, unused_mut, unused_variables, dead_code)]

use aegis_os::exception::TrapFrame;
use aegis_os::ipc::{self, empty_ep, MAX_ENDPOINTS, MSG_REGS};
use aegis_os::sched::{self, TaskState};

use aegis_os::state::Kernel;

/// A kernel in a clean state: every task Ready with its id, fake stack
/// and entry addresses; task 0 running; all tables empty; tick zero.
fn reset_test_state() -> Kernel {
    let mut k = Kernel::new();
    for i in 0..aegis_os::sched::NUM_TASKS {
        k.tcbs[i] = aegis_os::sched::empty_tcb();
        k.tcbs[i].id = i as u16;
        k.tcbs[i].state = aegis_os::sched::TaskState::Ready;
        k.tcbs[i].user_stack_top = 0x5000_0000 + ((i as u64 + 1) * 4096);
        k.tcbs[i].entry_point = 0x4008_0000 + (i as u64 * 0x100);
        k.tcbs[i].ttbr0 = 0;
        k.tcbs[i].notify_pending = 0;
        k.tcbs[i].notify_waiting = false;
    }
    k.current = 0;
    k.tcbs[0].state = aegis_os::sched::TaskState::Running;
    for i in 0..aegis_os::ipc::MAX_ENDPOINTS {
        k.endpoints[i] = aegis_os::ipc::empty_ep();
    }
    k.tick_count = 0;
    for i in 0..aegis_os::grant::MAX_GRANTS {
        k.grants[i] = aegis_os::grant::empty_grant();
    }
    for i in 0..aegis_os::irq::MAX_IRQ_BINDINGS {
        k.irq_bindings[i] = aegis_os::irq::empty_binding();
    }
    k
}

#[test]
fn ipc_cleanup_clears_sender_slot() {
    {
        let mut k = reset_test_state();

        k.endpoints[0].sender_queue.push(1);
        ipc::cleanup_task(&mut k, 1);
        assert!(!k.endpoints[0].sender_queue.contains(1));
    }
}

#[test]
fn ipc_cleanup_clears_receiver_slot() {
    {
        let mut k = reset_test_state();

        k.endpoints[0].receiver = Some(1);
        ipc::cleanup_task(&mut k, 1);
        assert_eq!(k.endpoints[0].receiver, None);
    }
}

#[test]
fn ipc_cleanup_clears_both_endpoints() {
    {
        let mut k = reset_test_state();

        k.endpoints[0].sender_queue.push(1);
        k.endpoints[1].receiver = Some(1);
        ipc::cleanup_task(&mut k, 1);
        assert!(!k.endpoints[0].sender_queue.contains(1));
        assert_eq!(k.endpoints[1].receiver, None);
    }
}

#[test]
fn ipc_cleanup_doesnt_affect_other_tasks() {
    {
        let mut k = reset_test_state();

        k.endpoints[0].sender_queue.push(0);
        k.endpoints[0].receiver = Some(2);
        k.endpoints[1].sender_queue.push(1);

        ipc::cleanup_task(&mut k, 1);

        // Task 0 and 2 slots should be untouched
        assert!(k.endpoints[0].sender_queue.contains(0));
        assert_eq!(k.endpoints[0].receiver, Some(2));
        // Task 1 slot should be cleared
        assert!(!k.endpoints[1].sender_queue.contains(1));
    }
}

#[test]
fn ipc_copy_message() {
    {
        let mut k = reset_test_state();

        // Set message in task 0's registers
        sched::set_task_reg(&mut k, 0, 0, 0x50494E47); // "PING"
        sched::set_task_reg(&mut k, 0, 1, 0x1111);
        sched::set_task_reg(&mut k, 0, 2, 0x2222);
        sched::set_task_reg(&mut k, 0, 3, 0x3333);

        // Copy message from task 0 → task 1
        ipc::copy_message(&mut k, 0, 1);

        // Verify all 4 message registers copied
        assert_eq!(sched::get_task_reg(&k, 1, 0), 0x50494E47);
        assert_eq!(sched::get_task_reg(&k, 1, 1), 0x1111);
        assert_eq!(sched::get_task_reg(&k, 1, 2), 0x2222);
        assert_eq!(sched::get_task_reg(&k, 1, 3), 0x3333);
    }
}

#[test]
fn ipc_msg_regs_count() {
    assert_eq!(MSG_REGS, 4);
}

#[test]
fn ipc_max_endpoints() {
    assert_eq!(MAX_ENDPOINTS, 4);
}

#[test]
fn ipc_endpoint_initial_state() {
    assert_eq!(empty_ep().sender_queue.count, 0);
    assert_eq!(empty_ep().receiver, None);
}

#[test]
fn sender_queue_push_pop_fifo() {
    let mut q = ipc::SenderQueue::new();
    assert!(q.push(0));
    assert!(q.push(1));
    assert!(q.push(2));
    assert_eq!(q.pop(), Some(0));
    assert_eq!(q.pop(), Some(1));
    assert_eq!(q.pop(), Some(2));
    assert_eq!(q.pop(), None);
}

#[test]
fn sender_queue_full_rejects() {
    let mut q = ipc::SenderQueue::new();
    for i in 0..ipc::MAX_WAITERS {
        assert!(q.push(i), "push {} should succeed", i);
    }
    // Queue is full — push should fail
    assert!(!q.push(99), "push should fail when queue is full");
}

#[test]
fn sender_queue_remove_middle() {
    let mut q = ipc::SenderQueue::new();
    q.push(0);
    q.push(1);
    q.push(2);
    q.remove(1);
    assert_eq!(q.count, 2);
    assert_eq!(q.pop(), Some(0));
    assert_eq!(q.pop(), Some(2));
    assert_eq!(q.pop(), None);
}

#[test]
fn sender_queue_contains() {
    let mut q = ipc::SenderQueue::new();
    q.push(5);
    q.push(7);
    assert!(q.contains(5));
    assert!(q.contains(7));
    assert!(!q.contains(3));
}

#[test]
fn sender_queue_wrap_around() {
    let mut q = ipc::SenderQueue::new();
    // Fill and drain to advance head
    q.push(10);
    q.push(11);
    q.pop(); // head moves to 1
    q.pop(); // head moves to 2

    // Now push to wrap around
    q.push(20);
    q.push(21);
    q.push(22);
    q.push(23);
    assert_eq!(q.count, 4);
    assert_eq!(q.pop(), Some(20));
    assert_eq!(q.pop(), Some(21));
    assert_eq!(q.pop(), Some(22));
    assert_eq!(q.pop(), Some(23));
}

#[test]
fn ipc_four_endpoints_exist() {
    {
        let mut k = reset_test_state();
        // All 4 endpoints should be accessible and initially empty
        for i in 0..4 {
            assert_eq!(k.endpoints[i].sender_queue.count, 0,
                "EP{} sender_queue should be empty", i);
            assert_eq!(k.endpoints[i].receiver, None,
                "EP{} receiver should be None", i);
        }
    }
}

#[test]
fn ipc_cleanup_all_four_endpoints() {
    {
        let mut k = reset_test_state();
        // Put task 1 in all 4 endpoints
        k.endpoints[0].sender_queue.push(1);
        k.endpoints[1].receiver = Some(1);
        k.endpoints[2].sender_queue.push(1);
        k.endpoints[3].receiver = Some(1);

        ipc::cleanup_task(&mut k, 1);

        for i in 0..4 {
            assert!(!k.endpoints[i].sender_queue.contains(1),
                "EP{} should not contain task 1 after cleanup", i);
            assert_ne!(k.endpoints[i].receiver, Some(1),
                "EP{} receiver should not be task 1 after cleanup", i);
        }
    }
}

#[test]
fn ipc_sys_send_immediate_delivery() {
    // Receiver already waiting → message delivered immediately
    {
        let mut k = reset_test_state();
        // Task 1 is waiting to receive on EP0
        k.endpoints[0].receiver = Some(1);
        k.tcbs[1].state = TaskState::Blocked;
        // Set task 0 as current (sender), put message in its context
        k.current = 0;
        k.tcbs[0].state = TaskState::Running;
        k.tcbs[0].context.x[0] = 0xAAAA;
        k.tcbs[0].context.x[1] = 0xBBBB;
        k.tcbs[0].context.x[2] = 0xCCCC;
        k.tcbs[0].context.x[3] = 0xDDDD;

        let mut frame = k.tcbs[0].context;
        ipc::sys_send(&mut k, &mut frame, 0);

        // Receiver should have the message and be Ready
        assert_eq!(k.tcbs[1].context.x[0], 0xAAAA);
        assert_eq!(k.tcbs[1].context.x[1], 0xBBBB);
        assert_eq!(k.tcbs[1].context.x[2], 0xCCCC);
        assert_eq!(k.tcbs[1].context.x[3], 0xDDDD);
        assert_eq!(k.tcbs[1].state, TaskState::Ready);
        // Receiver slot should be cleared
        assert!(k.endpoints[0].receiver.is_none());
    }
}

#[test]
fn ipc_sys_send_blocks_when_no_receiver() {
    // No receiver → sender enqueued and blocked
    {
        let mut k = reset_test_state();
        k.current = 0;
        k.tcbs[0].state = TaskState::Running;
        k.tcbs[0].context.x[0] = 0x1234;

        let mut frame = k.tcbs[0].context;
        ipc::sys_send(&mut k, &mut frame, 0);

        // Sender should be blocked and in the queue
        assert_eq!(k.tcbs[0].state, TaskState::Blocked);
        assert!(k.endpoints[0].sender_queue.contains(0));
    }
}

#[test]
fn ipc_sys_send_invalid_endpoint() {
    // Invalid ep_id → no crash, no state change
    {
        let mut k = reset_test_state();
        k.current = 0;
        k.tcbs[0].state = TaskState::Running;

        let mut frame = k.tcbs[0].context;
        ipc::sys_send(&mut k, &mut frame, 99); // invalid

        // Should still be Running, no panic
        assert_eq!(k.tcbs[0].state, TaskState::Running);
    }
}

#[test]
fn ipc_sys_send_queue_full() {
    // Sender queue full → early return, not blocked
    {
        let mut k = reset_test_state();
        // Fill sender queue with fake tasks
        for i in 0..ipc::MAX_WAITERS {
            k.endpoints[0].sender_queue.push(i);
        }
        k.current = 0;
        k.tcbs[0].state = TaskState::Running;

        let mut frame = k.tcbs[0].context;
        ipc::sys_send(&mut k, &mut frame, 0);

        // Should return without blocking (queue was full)
        // State may be Running or Ready depending on schedule path
        // The key is it didn't deadlock
        assert!(k.tcbs[0].state == TaskState::Running
            || k.tcbs[0].state == TaskState::Ready);
    }
}

#[test]
fn ipc_sys_recv_immediate_delivery() {
    // Sender already waiting → message received immediately
    {
        let mut k = reset_test_state();
        // Task 0 is a sender queued on EP0 with a message
        k.tcbs[0].state = TaskState::Blocked;
        k.tcbs[0].context.x[0] = 0xFEED;
        k.tcbs[0].context.x[1] = 0xBEEF;
        k.endpoints[0].sender_queue.push(0);

        // Task 1 calls recv
        k.current = 1;
        k.tcbs[1].state = TaskState::Running;
        let mut frame = k.tcbs[1].context;
        ipc::sys_recv(&mut k, &mut frame, 0);

        // Sender should be unblocked
        assert_eq!(k.tcbs[0].state, TaskState::Ready);
        // Receiver should have the message (loaded into frame and TCB)
        assert_eq!(k.tcbs[1].context.x[0], 0xFEED);
        assert_eq!(k.tcbs[1].context.x[1], 0xBEEF);
        // Queue should be empty
        assert_eq!(k.endpoints[0].sender_queue.count, 0);
    }
}

#[test]
fn ipc_sys_recv_blocks_when_no_sender() {
    // No sender → receiver blocks
    {
        let mut k = reset_test_state();
        k.current = 1;
        k.tcbs[1].state = TaskState::Running;

        let mut frame = k.tcbs[1].context;
        ipc::sys_recv(&mut k, &mut frame, 0);

        // Receiver should be blocked and registered
        assert_eq!(k.tcbs[1].state, TaskState::Blocked);
        assert_eq!(k.endpoints[0].receiver, Some(1));
    }
}

#[test]
fn ipc_sys_recv_invalid_endpoint() {
    // Invalid ep_id → no crash
    {
        let mut k = reset_test_state();
        k.current = 0;
        k.tcbs[0].state = TaskState::Running;

        let mut frame = k.tcbs[0].context;
        ipc::sys_recv(&mut k, &mut frame, 99);

        assert_eq!(k.tcbs[0].state, TaskState::Running);
    }
}

#[test]
fn ipc_sys_call_with_receiver_waiting() {
    // Receiver waiting → deliver message, caller blocks as new receiver
    {
        let mut k = reset_test_state();
        // Task 1 is waiting to receive on EP0
        k.endpoints[0].receiver = Some(1);
        k.tcbs[1].state = TaskState::Blocked;

        // Task 0 calls sys_call (send + recv)
        k.current = 0;
        k.tcbs[0].state = TaskState::Running;
        k.tcbs[0].context.x[0] = 0xCAFE;

        let mut frame = k.tcbs[0].context;
        ipc::sys_call(&mut k, &mut frame, 0);

        // Message delivered to task 1
        assert_eq!(k.tcbs[1].context.x[0], 0xCAFE);
        // Task 1 is Ready or Running (schedule may have picked it)
        assert!(k.tcbs[1].state == TaskState::Ready
            || k.tcbs[1].state == TaskState::Running);

        // Caller (task 0) should now be receiver, blocked
        assert_eq!(k.tcbs[0].state, TaskState::Blocked);
        assert_eq!(k.endpoints[0].receiver, Some(0));
    }
}

#[test]
fn ipc_sys_call_no_receiver() {
    // No receiver → enqueue as sender, block
    {
        let mut k = reset_test_state();
        k.current = 0;
        k.tcbs[0].state = TaskState::Running;
        k.tcbs[0].context.x[0] = 0x9999;

        let mut frame = k.tcbs[0].context;
        ipc::sys_call(&mut k, &mut frame, 0);

        // Should be blocked, enqueued as sender
        assert_eq!(k.tcbs[0].state, TaskState::Blocked);
        assert!(k.endpoints[0].sender_queue.contains(0));
    }
}

#[test]
fn ipc_sys_call_invalid_endpoint() {
    {
        let mut k = reset_test_state();
        k.current = 0;
        k.tcbs[0].state = TaskState::Running;

        let mut frame = k.tcbs[0].context;
        ipc::sys_call(&mut k, &mut frame, 99);

        assert_eq!(k.tcbs[0].state, TaskState::Running);
    }
}

#[test]
fn ipc_sys_call_queue_full() {
    // Queue full when no receiver → sender can't enqueue
    {
        let mut k = reset_test_state();
        for i in 0..ipc::MAX_WAITERS {
            k.endpoints[0].sender_queue.push(i);
        }
        k.current = 0;
        k.tcbs[0].state = TaskState::Running;

        let mut frame = k.tcbs[0].context;
        ipc::sys_call(&mut k, &mut frame, 0);

        // Should not deadlock — early return
        assert!(k.tcbs[0].state == TaskState::Running
            || k.tcbs[0].state == TaskState::Ready);
    }
}

#[test]
fn ipc_sys_call_priority_boost() {
    // High-priority caller → receiver gets boosted
    {
        let mut k = reset_test_state();
        // Task 0 = high priority (7), task 1 = low priority (2)
        k.tcbs[0].priority = 7;
        k.tcbs[0].base_priority = 7;
        k.tcbs[1].priority = 2;
        k.tcbs[1].base_priority = 2;

        // Task 1 is waiting to receive
        k.endpoints[0].receiver = Some(1);
        k.tcbs[1].state = TaskState::Blocked;

        // Task 0 calls (sends + waits for reply)
        k.current = 0;
        k.tcbs[0].state = TaskState::Running;
        k.tcbs[0].context.x[0] = 0x42;

        let mut frame = k.tcbs[0].context;
        ipc::sys_call(&mut k, &mut frame, 0);

        // Task 1 should have been boosted to priority 7
        assert_eq!(k.tcbs[1].priority, 7);
        // Task 1's base priority unchanged
        assert_eq!(k.tcbs[1].base_priority, 2);
    }
}

#[test]
fn ipc_send_restores_receiver_priority() {
    // After send delivers message, receiver's base priority is restored
    {
        let mut k = reset_test_state();
        // Receiver was boosted from previous call
        k.tcbs[1].priority = 7;
        k.tcbs[1].base_priority = 2;
        k.endpoints[0].receiver = Some(1);
        k.tcbs[1].state = TaskState::Blocked;

        k.current = 0;
        k.tcbs[0].state = TaskState::Running;
        k.tcbs[0].context.x[0] = 0x55;

        let mut frame = k.tcbs[0].context;
        ipc::sys_send(&mut k, &mut frame, 0);

        // sys_send calls restore_base_priority on receiver
        assert_eq!(k.tcbs[1].priority, 2);
    }
}

#[test]
fn ipc_round_trip_message_integrity() {
    // Full round-trip: task 0 sends, task 1 receives — all 4 regs match
    {
        let mut k = reset_test_state();
        // Task 1 is waiting on EP0
        k.endpoints[0].receiver = Some(1);
        k.tcbs[1].state = TaskState::Blocked;

        // Task 0 sends specific message
        k.current = 0;
        k.tcbs[0].state = TaskState::Running;
        k.tcbs[0].context.x[0] = 0x1111_1111_AAAA_BBBB;
        k.tcbs[0].context.x[1] = 0x2222_2222_CCCC_DDDD;
        k.tcbs[0].context.x[2] = 0x3333_3333_EEEE_FFFF;
        k.tcbs[0].context.x[3] = 0x4444_4444_0000_1111;

        let mut frame = k.tcbs[0].context;
        ipc::sys_send(&mut k, &mut frame, 0);

        assert_eq!(k.tcbs[1].context.x[0], 0x1111_1111_AAAA_BBBB);
        assert_eq!(k.tcbs[1].context.x[1], 0x2222_2222_CCCC_DDDD);
        assert_eq!(k.tcbs[1].context.x[2], 0x3333_3333_EEEE_FFFF);
        assert_eq!(k.tcbs[1].context.x[3], 0x4444_4444_0000_1111);
    }
}

#[test]
fn ipc_recv_loads_frame_on_immediate() {
    // When recv finds a waiting sender, it loads message into the frame
    {
        let mut k = reset_test_state();
        k.tcbs[0].state = TaskState::Blocked;
        k.tcbs[0].context.x[0] = 0xABCD;
        k.tcbs[0].context.x[1] = 0xEF01;
        k.endpoints[0].sender_queue.push(0);

        k.current = 1;
        k.tcbs[1].state = TaskState::Running;
        let mut frame = k.tcbs[1].context;
        ipc::sys_recv(&mut k, &mut frame, 0);

        // Frame should be updated (load_frame loads from TCB into frame)
        // The TCB should have the message
        assert_eq!(k.tcbs[1].context.x[0], 0xABCD);
        assert_eq!(k.tcbs[1].context.x[1], 0xEF01);
    }
}
