use aegis_os::cap::{
    self, CAP_HEARTBEAT, CAP_IPC_RECV_EP0, CAP_IPC_SEND_EP0, CAP_IPC_SEND_EP1, CAP_NONE,
    CAP_NOTIFY, CAP_WAIT_NOTIFY, CAP_WRITE, CAP_YIELD,
};
use aegis_os::exception::{
    self, classify_sync, exception_dispatch_irq, exception_dispatch_sync, fault_class,
    handle_svc, FaultClass, IrqOutcome, SvcAction, SyncClass, SyncOutcome, TrapFrame,
};
use aegis_os::grant;
use aegis_os::irq;
use aegis_os::sched::{TaskState, IDLE_TASK_ID};
use aegis_os::state::Kernel;

/// Three tasks, all Ready at priority 0 with their ids; task 0 runs.
fn fresh_kernel() -> Kernel {
    let mut k = Kernel::new();
    for i in 0..3 {
        k.tcbs[i].state = TaskState::Ready;
        k.tcbs[i].entry_point = 0x4008_0000 + (i as u64 * 0x100);
        k.tcbs[i].user_stack_top = 0x5000_0000 + ((i as u64 + 1) * 4096);
    }
    k.tcbs[0].state = TaskState::Running;
    k
}

fn syscall_frame(nr: u64, ep: u64, msg: [u64; 4]) -> TrapFrame {
    let mut f = TrapFrame::zeroed();
    f.x[7] = nr;
    f.x[6] = ep;
    f.x[0] = msg[0];
    f.x[1] = msg[1];
    f.x[2] = msg[2];
    f.x[3] = msg[3];
    f
}

#[test]
fn scenario_call_receive_reply() {
    let mut k = fresh_kernel();
    for t in 0..2 {
        k.tcbs[t].caps = CAP_IPC_SEND_EP0 | CAP_IPC_RECV_EP0;
        k.tcbs[t].priority = 1;
        k.tcbs[t].base_priority = 1;
    }
    assert!(k.is_wf());

    // A (task 0) calls on endpoint 0: nobody receives yet, so A queues up.
    let mut frame = syscall_frame(3, 0, [0xA0, 0xA1, 0xA2, 0xA3]);
    assert_eq!(handle_svc(&mut k, &mut frame), SvcAction::Resume);
    assert_eq!(k.tcbs[0].state, TaskState::Blocked);
    assert!(k.endpoints[0].sender_queue.contains(0));
    assert_eq!(k.current, 1);

    // B (task 1) receives: A leaves the queue and B holds A's payload.
    frame.x[7] = 2;
    frame.x[6] = 0;
    assert_eq!(handle_svc(&mut k, &mut frame), SvcAction::Resume);
    assert!(!k.endpoints[0].sender_queue.contains(0));
    assert_eq!(k.endpoints[0].sender_queue.count, 0);
    assert_eq!(&frame.x[0..4], &[0xA0, 0xA1, 0xA2, 0xA3]);
    assert_eq!(&k.tcbs[1].context.x[0..4], &[0xA0, 0xA1, 0xA2, 0xA3]);
    assert_eq!(k.tcbs[0].state, TaskState::Ready);
    assert_eq!(k.current, 1);

    // B is preempted; A runs again and waits for the reply.
    aegis_os::sched::schedule(&mut k, &mut frame);
    assert_eq!(k.current, 0);
    frame.x[7] = 2;
    frame.x[6] = 0;
    assert_eq!(handle_svc(&mut k, &mut frame), SvcAction::Resume);
    assert_eq!(k.endpoints[0].receiver, Some(0));
    assert_eq!(k.tcbs[0].state, TaskState::Blocked);
    assert_eq!(k.current, 1);

    // B replies: A receives B's payload and is Ready; B goes on.
    let mut reply = syscall_frame(1, 0, [0xB0, 0xB1, 0xB2, 0xB3]);
    assert_eq!(handle_svc(&mut k, &mut reply), SvcAction::Resume);
    assert_eq!(&k.tcbs[0].context.x[0..4], &[0xB0, 0xB1, 0xB2, 0xB3]);
    assert_eq!(k.tcbs[0].state, TaskState::Ready);
    assert_eq!(k.endpoints[0].receiver, None);
    assert_eq!(k.endpoints[0].sender_queue.count, 0);
    assert_eq!(k.current, 1);
    assert_eq!(k.tcbs[1].state, TaskState::Running);

    // At the next scheduling decision both are ready to run, and A,
    // behind B in the scan, is picked.
    aegis_os::sched::schedule(&mut k, &mut reply);
    assert_eq!(k.current, 0);
    assert_eq!(k.tcbs[1].state, TaskState::Ready);
    assert_eq!(&reply.x[0..4], &[0xB0, 0xB1, 0xB2, 0xB3]);
    assert!(k.is_wf());
}

#[test]
fn scenario_call_to_waiting_receiver_and_reply() {
    let mut k = fresh_kernel();
    k.tcbs[0].caps = CAP_IPC_SEND_EP0 | CAP_IPC_RECV_EP0;
    k.tcbs[1].caps = CAP_IPC_RECV_EP0 | CAP_IPC_SEND_EP0;
    // B (task 1) already waits to receive on endpoint 0.
    k.tcbs[1].state = TaskState::Blocked;
    k.endpoints[0].receiver = Some(1);

    // A calls: B gets the payload, A becomes the waiting receiver.
    let mut frame = syscall_frame(3, 0, [1, 2, 3, 4]);
    handle_svc(&mut k, &mut frame);
    assert_eq!(&k.tcbs[1].context.x[0..4], &[1, 2, 3, 4]);
    assert_eq!(k.endpoints[0].receiver, Some(0));
    assert_eq!(k.tcbs[0].state, TaskState::Blocked);
    assert_eq!(k.current, 1);
    assert_eq!(k.tcbs[1].state, TaskState::Running);
    assert_eq!(&frame.x[0..4], &[1, 2, 3, 4]);

    // B replies with a send: A holds the reply and is Ready.
    let mut reply = syscall_frame(1, 0, [0x4F4B, 0, 0, 0]);
    handle_svc(&mut k, &mut reply);
    assert_eq!(&k.tcbs[0].context.x[0..4], &[0x4F4B, 0, 0, 0]);
    assert_eq!(k.tcbs[0].state, TaskState::Ready);
    assert_eq!(k.endpoints[0].receiver, None);
    assert!(k.endpoints[0].sender_queue.count == 0);
}

#[test]
fn scenario_write_without_capability_faults() {
    let mut k = fresh_kernel();
    k.tick_count = 77;
    k.tcbs[0].caps = CAP_NONE;
    assert_eq!(cap::cap_for_syscall(4, 0), CAP_WRITE);
    assert!(!cap::cap_check(k.tcbs[0].caps, CAP_WRITE));

    let mut frame = syscall_frame(4, 0, [0x4008_0000, 16, 0, 0]);
    let action = handle_svc(&mut k, &mut frame);

    assert_eq!(action, SvcAction::TaskFaulted { task: 0 });
    assert_eq!(k.tcbs[0].state, TaskState::Faulted);
    assert_eq!(k.tcbs[0].fault_tick, 77);
    assert_ne!(k.current, 0);
    assert_eq!(k.current, 1);
}

#[test]
fn write_with_capability_is_passed_on() {
    let mut k = fresh_kernel();
    k.tcbs[0].caps = CAP_WRITE;
    let mut frame = syscall_frame(4, 0, [0x4008_0000, 16, 0, 0]);
    let before = k;
    let action = handle_svc(&mut k, &mut frame);
    assert_eq!(action, SvcAction::ConsoleWrite { buf: 0x4008_0000, len: 16 });
    assert_eq!(k.current, before.current);
    assert_eq!(k.tcbs[0].state, TaskState::Running);
}

#[test]
fn write_with_bad_buffer_is_ignored() {
    let mut k = fresh_kernel();
    k.tcbs[0].caps = CAP_WRITE;
    let mut frame = syscall_frame(4, 0, [0x0900_0000, 16, 0, 0]);
    assert_eq!(handle_svc(&mut k, &mut frame), SvcAction::Resume);
    assert_eq!(k.tcbs[0].state, TaskState::Running);
    let mut frame = syscall_frame(4, 0, [0x4008_0000, 257, 0, 0]);
    assert_eq!(handle_svc(&mut k, &mut frame), SvcAction::Resume);
}

#[test]
fn unknown_syscall_faults_even_with_all_capabilities() {
    let mut k = fresh_kernel();
    k.tcbs[0].caps = cap::CAP_ALL;
    let mut frame = syscall_frame(99, 0, [0; 4]);
    assert_eq!(handle_svc(&mut k, &mut frame), SvcAction::TaskFaulted { task: 0 });
    assert_eq!(k.tcbs[0].state, TaskState::Faulted);
    assert_eq!(cap::required_capability(99, 0), None);
    assert_eq!(cap::required_capability(14, 0), None);
}

#[test]
fn send_on_missing_endpoint_faults() {
    let mut k = fresh_kernel();
    k.tcbs[0].caps = cap::CAP_ALL;
    let mut frame = syscall_frame(1, 4, [1, 2, 3, 4]);
    assert_eq!(handle_svc(&mut k, &mut frame), SvcAction::TaskFaulted { task: 0 });
    assert_eq!(k.tcbs[0].state, TaskState::Faulted);
    assert_eq!(cap::required_capability(1, 4), None);
    assert_eq!(cap::required_capability(1, 3), Some(cap::CAP_IPC_SEND_EP3));
}

#[test]
fn send_needs_the_capability_of_its_endpoint() {
    let mut k = fresh_kernel();
    k.tcbs[0].caps = CAP_IPC_SEND_EP1;
    let mut frame = syscall_frame(1, 0, [1, 2, 3, 4]);
    assert_eq!(handle_svc(&mut k, &mut frame), SvcAction::TaskFaulted { task: 0 });
    assert_eq!(k.endpoints[0].sender_queue.count, 0);

    let mut k = fresh_kernel();
    k.tcbs[0].caps = CAP_IPC_SEND_EP1;
    let mut frame = syscall_frame(1, 1, [1, 2, 3, 4]);
    assert_eq!(handle_svc(&mut k, &mut frame), SvcAction::Resume);
    assert!(k.endpoints[1].sender_queue.contains(0));
    assert_eq!(k.tcbs[0].state, TaskState::Blocked);
}

#[test]
fn exit_needs_no_capability_and_is_final() {
    let mut k = fresh_kernel();
    k.tcbs[0].caps = CAP_NONE;
    k.tcbs[0].priority = 7;
    k.tcbs[0].base_priority = 3;
    k.tcbs[0].heartbeat_interval = 50;
    k.endpoints[2].receiver = Some(0);
    assert_eq!(cap::required_capability(13, 0), Some(0));
    let mut frame = syscall_frame(13, 0, [0; 4]);
    assert_eq!(handle_svc(&mut k, &mut frame), SvcAction::TaskExited { task: 0 });
    assert_eq!(k.tcbs[0].state, TaskState::Exited);
    assert_eq!(k.tcbs[0].priority, 3);
    assert_eq!(k.tcbs[0].heartbeat_interval, 0);
    assert_eq!(k.endpoints[2].receiver, None);
    assert_eq!(k.current, 1);

    // An exited task is never restarted, however long it waits.
    k.tick_count = 10_000;
    let mut f = k.tcbs[1].context;
    aegis_os::sched::schedule(&mut k, &mut f);
    assert_eq!(k.tcbs[0].state, TaskState::Exited);
}

#[test]
fn yield_switches_to_the_next_ready_task() {
    let mut k = fresh_kernel();
    k.tcbs[0].caps = CAP_YIELD;
    k.tcbs[1].context.x[5] = 0x55;
    let mut frame = syscall_frame(0, 0, [9, 9, 9, 9]);
    assert_eq!(handle_svc(&mut k, &mut frame), SvcAction::Resume);
    assert_eq!(k.current, 1);
    assert_eq!(frame.x[5], 0x55);
    assert_eq!(k.tcbs[0].context.x[0], 9);
    assert_eq!(k.tcbs[0].state, TaskState::Ready);
}

#[test]
fn notify_and_wait_notify() {
    let mut k = fresh_kernel();
    k.tcbs[0].caps = CAP_WAIT_NOTIFY;
    k.tcbs[1].caps = CAP_NOTIFY;

    // Task 0 waits: nothing pending, so it blocks.
    let mut frame = syscall_frame(6, 0, [0; 4]);
    assert_eq!(handle_svc(&mut k, &mut frame), SvcAction::Resume);
    assert_eq!(k.tcbs[0].state, TaskState::Blocked);
    assert!(k.tcbs[0].notify_waiting);
    assert_eq!(k.current, 1);

    // Task 1 notifies task 0 with bits 0x5.
    let mut frame = syscall_frame(5, 0, [0x5, 0, 0, 0]);
    assert_eq!(handle_svc(&mut k, &mut frame), SvcAction::Resume);
    assert_eq!(k.tcbs[0].state, TaskState::Ready);
    assert!(!k.tcbs[0].notify_waiting);
    assert_eq!(k.tcbs[0].notify_pending, 0);
    assert_eq!(k.tcbs[0].context.x[0], 0x5);
    assert_eq!(k.current, 1);

    // A second notification stays pending until task 0 asks for it.
    let mut frame = syscall_frame(5, 0, [0x2, 0, 0, 0]);
    handle_svc(&mut k, &mut frame);
    let mut frame = syscall_frame(5, 0, [0x8, 0, 0, 0]);
    handle_svc(&mut k, &mut frame);
    assert_eq!(k.tcbs[0].notify_pending, 0xA);
    k.current = 0;
    k.tcbs[0].state = TaskState::Running;
    k.tcbs[1].state = TaskState::Ready;
    let mut frame = syscall_frame(6, 0, [0; 4]);
    handle_svc(&mut k, &mut frame);
    assert_eq!(frame.x[0], 0xA);
    assert_eq!(k.tcbs[0].notify_pending, 0);
    assert_eq!(k.tcbs[0].state, TaskState::Running);
}

#[test]
fn notify_to_missing_task_reports_an_error() {
    let mut k = fresh_kernel();
    k.tcbs[0].caps = CAP_NOTIFY;
    let mut frame = syscall_frame(5, 3, [0x1, 0, 0, 0]);
    let before = k;
    assert_eq!(handle_svc(&mut k, &mut frame), SvcAction::Resume);
    assert_eq!(frame.x[0], 0xFFFF_DEAD);
    for i in 0..3 {
        assert_eq!(k.tcbs[i].notify_pending, before.tcbs[i].notify_pending);
    }
    // No bits: nothing happens.
    let mut frame = syscall_frame(5, 1, [0, 0, 0, 0]);
    handle_svc(&mut k, &mut frame);
    assert_eq!(frame.x[0], 0);
    assert_eq!(k.tcbs[1].notify_pending, 0);
}

#[test]
fn heartbeat_syscall_arms_the_watchdog() {
    let mut k = fresh_kernel();
    k.tcbs[0].caps = CAP_HEARTBEAT;
    k.tick_count = 42;
    let mut frame = syscall_frame(12, 0, [50, 7, 7, 7]);
    assert_eq!(handle_svc(&mut k, &mut frame), SvcAction::Resume);
    assert_eq!(frame.x[0], 0);
    assert_eq!(frame.x[1], 7);
    assert_eq!(k.tcbs[0].heartbeat_interval, 50);
    assert_eq!(k.tcbs[0].last_heartbeat, 42);
}

#[test]
fn grant_syscalls_report_what_to_map() {
    let mut k = fresh_kernel();
    k.tcbs[0].caps = cap::CAP_GRANT_CREATE | cap::CAP_GRANT_REVOKE;
    // grant 1 to peer 2
    let mut frame = syscall_frame(7, 2, [1, 0, 0, 0]);
    assert_eq!(handle_svc(&mut k, &mut frame), SvcAction::MapGrant { grant_id: 1 });
    assert_eq!(frame.x[0], 0);
    assert!(k.grants[1].active);
    assert_eq!(k.grants[1].owner, Some(0));
    assert_eq!(k.grants[1].peer, Some(2));
    assert_eq!(k.grants[1].phys_addr, 0x4010_1000);

    // a second create on the same page fails
    let mut frame = syscall_frame(7, 1, [1, 0, 0, 0]);
    assert_eq!(handle_svc(&mut k, &mut frame), SvcAction::Resume);
    assert_eq!(frame.x[0], 0xFFFF_0002);

    // revoke unmaps the peer
    let mut frame = syscall_frame(8, 0, [1, 0, 0, 0]);
    assert_eq!(
        handle_svc(&mut k, &mut frame),
        SvcAction::UnmapGrant { phys_addr: 0x4010_1000, peer: 2 }
    );
    assert_eq!(frame.x[0], 0);
    assert!(!k.grants[1].active);

    // revoking again is a no-op that unmaps nothing
    let mut frame = syscall_frame(8, 0, [1, 0, 0, 0]);
    assert_eq!(handle_svc(&mut k, &mut frame), SvcAction::Resume);
    assert_eq!(frame.x[0], 0);

    // a page that does not exist
    let mut frame = syscall_frame(8, 0, [2, 0, 0, 0]);
    assert_eq!(handle_svc(&mut k, &mut frame), SvcAction::Resume);
    assert_eq!(frame.x[0], 0xFFFF_0001);
}

#[test]
fn irq_syscalls_report_what_to_enable() {
    let mut k = fresh_kernel();
    k.tcbs[0].caps = cap::CAP_IRQ_BIND | cap::CAP_IRQ_ACK;
    let mut frame = syscall_frame(9, 0, [33, 0x4, 0, 0]);
    assert_eq!(handle_svc(&mut k, &mut frame), SvcAction::EnableIntid { intid: 33 });
    assert_eq!(frame.x[0], 0);
    assert!(k.irq_bindings[0].active);
    assert_eq!(k.irq_bindings[0].task_id, 0);
    assert_eq!(k.irq_bindings[0].notify_bit, 0x4);

    // nothing fired yet: the acknowledgement is accepted and unmasks nothing
    let mut frame = syscall_frame(10, 0, [33, 0, 0, 0]);
    assert_eq!(handle_svc(&mut k, &mut frame), SvcAction::Resume);
    assert_eq!(frame.x[0], 0);

    // the interrupt fires, then the acknowledgement unmasks it
    let mut f = TrapFrame::zeroed();
    assert_eq!(exception_dispatch_irq(&mut k, &mut f, 33), IrqOutcome::Routed);
    assert!(k.irq_bindings[0].pending_ack);
    assert_eq!(k.tcbs[0].notify_pending, 0x4);
    let mut frame = syscall_frame(10, 0, [33, 0, 0, 0]);
    assert_eq!(handle_svc(&mut k, &mut frame), SvcAction::EnableIntid { intid: 33 });
    assert!(!k.irq_bindings[0].pending_ack);

    // only the low word of the register names the interrupt
    let mut frame = syscall_frame(9, 0, [0x1_0000_0022, 0x8, 0, 0]);
    assert_eq!(handle_svc(&mut k, &mut frame), SvcAction::EnableIntid { intid: 34 });

    // a private interrupt cannot be bound
    let mut frame = syscall_frame(9, 0, [30, 0x8, 0, 0]);
    assert_eq!(handle_svc(&mut k, &mut frame), SvcAction::Resume);
    assert_eq!(frame.x[0], irq::ERR_INVALID_INTID);
    // an interrupt nobody bound
    let mut frame = syscall_frame(10, 0, [77, 0, 0, 0]);
    assert_eq!(handle_svc(&mut k, &mut frame), SvcAction::Resume);
    assert_eq!(frame.x[0], irq::ERR_NOT_BOUND);
}

#[test]
fn device_map_syscall() {
    let mut k = fresh_kernel();
    k.tcbs[0].caps = cap::CAP_DEVICE_MAP;
    let mut frame = syscall_frame(11, 0, [0, 0, 0, 0]);
    assert_eq!(
        handle_svc(&mut k, &mut frame),
        SvcAction::MapDevice { device_id: 0, task: 0 }
    );
    assert_eq!(frame.x[0], 0);
    let mut frame = syscall_frame(11, 0, [1, 0, 0, 0]);
    assert_eq!(handle_svc(&mut k, &mut frame), SvcAction::Resume);
    assert_eq!(frame.x[0], 0xFFFF_2001);
}

#[test]
fn faulted_idle_task_is_restarted_at_once_when_alone() {
    let mut k = fresh_kernel();
    k.tcbs[0].state = TaskState::Blocked;
    k.tcbs[1].state = TaskState::Blocked;
    k.tcbs[2].state = TaskState::Running;
    k.tcbs[2].context.x[9] = 0x99;
    k.current = IDLE_TASK_ID;
    let mut frame = syscall_frame(4, 0, [0; 4]);
    assert_eq!(handle_svc(&mut k, &mut frame), SvcAction::TaskFaulted { task: 2 });
    assert_eq!(k.current, IDLE_TASK_ID);
    assert_eq!(k.tcbs[2].state, TaskState::Running);
    assert_eq!(frame.elr_el1, k.tcbs[2].entry_point);
    assert_eq!(frame.sp_el0, k.tcbs[2].user_stack_top);
    assert_eq!(frame.x[9], 0);
}

#[test]
fn sync_exceptions_are_classified() {
    let esr = |ec: u64| ec << 26;
    assert_eq!(classify_sync(esr(0x15), 2), SyncClass::Syscall);
    assert_eq!(classify_sync(esr(0x15) | 0x1234, 0), SyncClass::Syscall);
    assert_eq!(classify_sync(esr(0x20), 0), SyncClass::TaskFault);
    assert_eq!(classify_sync(esr(0x21), 2), SyncClass::KernelFault);
    assert_eq!(classify_sync(esr(0x24), 1), SyncClass::TaskFault);
    assert_eq!(classify_sync(esr(0x25), 2), SyncClass::KernelFault);
    assert_eq!(classify_sync(esr(0x07), 2), SyncClass::TaskFault);
    assert_eq!(classify_sync(esr(0x07), 1), SyncClass::KernelFault);
    assert_eq!(classify_sync(esr(0x3C), 2), SyncClass::TaskFault);
    assert_eq!(classify_sync(esr(0x3C), 0), SyncClass::KernelFault);
}

#[test]
fn sync_dispatch_faults_the_task_or_halts() {
    let mut k = fresh_kernel();
    k.tick_count = 5;
    let mut frame = syscall_frame(0, 0, [0; 4]);
    let out = exception_dispatch_sync(&mut k, &mut frame, 0x24 << 26, 2);
    assert_eq!(out, SyncOutcome::TaskFaulted { task: 0 });
    assert_eq!(k.tcbs[0].state, TaskState::Faulted);
    assert_eq!(k.tcbs[0].fault_tick, 5);
    assert_eq!(k.current, 1);

    let before = k;
    let out = exception_dispatch_sync(&mut k, &mut frame, 0x25 << 26, 1);
    assert_eq!(out, SyncOutcome::Halt);
    assert_eq!(k.current, before.current);
    assert_eq!(k.tcbs[1].state, before.tcbs[1].state);

    k.tcbs[1].caps = CAP_YIELD;
    let mut frame = syscall_frame(0, 0, [0; 4]);
    let out = exception_dispatch_sync(&mut k, &mut frame, 0x15 << 26, 2);
    assert_eq!(out, SyncOutcome::Syscall { action: SvcAction::Resume });
    assert_eq!(k.current, 2);
}

#[test]
fn irq_dispatch_outcomes() {
    let mut k = fresh_kernel();
    let mut frame = TrapFrame::zeroed();
    assert_eq!(exception_dispatch_irq(&mut k, &mut frame, 1023), IrqOutcome::Spurious);
    assert_eq!(k.tick_count, 0);
    assert_eq!(exception_dispatch_irq(&mut k, &mut frame, 40), IrqOutcome::Unbound);
    assert_eq!(k.tick_count, 0);
    assert_eq!(exception_dispatch_irq(&mut k, &mut frame, 30), IrqOutcome::Tick);
    assert_eq!(k.tick_count, 1);
    assert_eq!(irq::irq_bind(&mut k.irq_bindings, 40, 2, 0x10), 0);
    assert_eq!(exception_dispatch_irq(&mut k, &mut frame, 40), IrqOutcome::Routed);
    assert_eq!(k.tcbs[2].notify_pending, 0x10);
}

#[test]
fn fault_status_codes_are_decoded() {
    assert_eq!(fault_class(0b000101), (FaultClass::Translation, 1));
    assert_eq!(fault_class(0b001011), (FaultClass::AccessFlag, 3));
    assert_eq!(fault_class(0b001110), (FaultClass::Permission, 2));
    assert_eq!(fault_class(0b010000), (FaultClass::Other, 0));
    assert_eq!(fault_class(0), (FaultClass::Other, 0));
}

#[test]
fn register_values_become_indices() {
    assert_eq!(exception::to_index(0), 0);
    assert_eq!(exception::to_index(3), 3);
    assert_eq!(exception::to_intid(33), 33);
    assert_eq!(exception::to_intid(0xFFFF_FFFF_0000_0021), 0x21);
}

/// What holds of the waiting tasks whenever a task runs: every waiting
/// task is Blocked and waits in one place only, and the running task
/// waits nowhere.
fn assert_orderly(k: &Kernel) {
    assert!(k.is_wf());
    assert!(k.senders_ok());
    assert_eq!(k.tcbs[k.current].state, TaskState::Running);
    let mut places = [0usize; 3];
    for ep in k.endpoints.iter() {
        let q = ep.sender_queue;
        for j in 0..q.count {
            places[q.tasks[(q.head + j) % aegis_os::ipc::MAX_WAITERS]] += 1;
        }
        if let Some(r) = ep.receiver {
            places[r] += 1;
        }
    }
    for t in 0..3 {
        assert!(places[t] <= 1, "task {} waits in {} places", t, places[t]);
        if places[t] == 1 {
            assert_eq!(k.tcbs[t].state, TaskState::Blocked);
            assert!(!k.tcbs[t].notify_waiting);
        }
        if matches!(k.tcbs[t].state, TaskState::Ready | TaskState::Running) {
            assert!(!k.tcbs[t].notify_waiting);
        }
    }
    assert_ne!(k.tcbs[IDLE_TASK_ID].state, TaskState::Blocked);
}

#[test]
fn order_is_kept_through_many_traps() {
    let mut k = fresh_kernel();
    k.tcbs[0].caps = cap::CAP_ALL;
    k.tcbs[1].caps = cap::CAP_ALL;
    k.tcbs[2].caps = CAP_YIELD | CAP_WRITE | CAP_NOTIFY | CAP_HEARTBEAT;
    k.tcbs[0].priority = 2;
    k.tcbs[0].base_priority = 2;
    k.tcbs[1].priority = 1;
    k.tcbs[1].base_priority = 1;
    k.tcbs[1].time_budget = 7;
    let caps = [k.tcbs[0].caps, k.tcbs[1].caps, k.tcbs[2].caps];
    let mut frame = TrapFrame::zeroed();
    let mut seed: u64 = 0x2545_F491_4F6C_DD1D;
    let mut next = move || {
        seed ^= seed << 13;
        seed ^= seed >> 7;
        seed ^= seed << 17;
        seed
    };
    let mut faults = 0;
    let mut blocked = 0;
    for _ in 0..20_000 {
        let r = next();
        if r % 5 == 0 {
            assert_eq!(exception_dispatch_irq(&mut k, &mut frame, 30), IrqOutcome::Tick);
        } else if r % 97 == 0 {
            exception_dispatch_irq(&mut k, &mut frame, 33);
        } else {
            frame.x[7] = (r >> 8) % 15;
            frame.x[6] = (r >> 16) % 5;
            frame.x[0] = (r >> 24) % 64;
            frame.x[1] = (r >> 32) % 4;
            match handle_svc(&mut k, &mut frame) {
                SvcAction::TaskFaulted { .. } => faults += 1,
                _ => {}
            }
        }
        assert_orderly(&k);
        for t in 0..3 {
            assert_eq!(k.tcbs[t].caps, caps[t]);
            assert_eq!(k.tcbs[t].id as usize, t);
            if k.tcbs[t].state == TaskState::Blocked {
                blocked += 1;
            }
            // an exited task stays out; bring it back to keep the run going
            if k.tcbs[t].state == TaskState::Exited {
                k.tcbs[t].state = TaskState::Faulted;
                k.tcbs[t].fault_tick = k.tick_count;
            }
        }
    }
    assert!(faults > 100);
    assert!(blocked > 100);
    assert!(k.tick_count > 1000);
}
