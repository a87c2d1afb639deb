use aegis_os::exception::{self, AbortKind, FaultReport, IrqOutcome, TrapFrame};
use aegis_os::grant::{Grant, MAX_GRANTS};
use aegis_os::ipc;
use aegis_os::irq::{IrqBinding, MAX_IRQ_BINDINGS};
use aegis_os::mmu;
use aegis_os::platform::qemu_virt;
use aegis_os::sched::{self, TaskState, IDLE_TASK_ID, NUM_TASKS, RESTART_DELAY_TICKS};
use aegis_os::state::Kernel;
use aegis_os::timer;

fn running_kernel() -> Kernel {
    let mut k = Kernel::new();
    for i in 0..NUM_TASKS {
        k.tcbs[i].state = TaskState::Ready;
        k.tcbs[i].entry_point = 0x4008_0000 + 0x100 * i as u64;
        k.tcbs[i].user_stack_top = 0x4020_0000 + 0x1000 * (i as u64 + 1);
    }
    k.tcbs[0].state = TaskState::Running;
    k
}

#[test]
fn release_plan_names_pages_and_interrupts() {
    let mut k = running_kernel();
    k.grants[0] = Grant { owner: Some(0), peer: Some(1), phys_addr: 0x4010_0000, active: true };
    k.grants[1] = Grant { owner: Some(1), peer: Some(0), phys_addr: 0x4010_1000, active: true };
    k.irq_bindings[0] =
        IrqBinding { intid: 33, task_id: 0, notify_bit: 1, active: true, pending_ack: false };
    k.irq_bindings[1] =
        IrqBinding { intid: 34, task_id: 1, notify_bit: 2, active: true, pending_ack: true };
    k.irq_bindings[2] =
        IrqBinding { intid: 35, task_id: 0, notify_bit: 4, active: false, pending_ack: false };

    let (unmap, disable) = sched::release_plan(&k, 0);
    // its own grant: unmapped from the peer and from the owner
    assert_eq!(unmap[0], (Some(1), Some(0)));
    // the grant it was given: unmapped from it alone
    assert_eq!(unmap[1], (None, Some(0)));
    let mut want = [false; MAX_IRQ_BINDINGS];
    want[0] = true;
    assert_eq!(disable, want);

    let (unmap, disable) = sched::release_plan(&k, 1);
    assert_eq!(unmap[0], (None, Some(1)));
    assert_eq!(unmap[1], (Some(0), Some(1)));
    let mut want = [false; MAX_IRQ_BINDINGS];
    want[1] = true;
    assert_eq!(disable, want);

    // a task that holds nothing
    let (unmap, disable) = sched::release_plan(&k, 2);
    assert_eq!(unmap, [(None, None); MAX_GRANTS]);
    assert_eq!(disable, [false; MAX_IRQ_BINDINGS]);
}

#[test]
fn release_plan_skips_inactive_grants_and_unshared_ones() {
    let mut k = running_kernel();
    k.grants[0] = Grant { owner: Some(0), peer: Some(1), phys_addr: 0x4010_0000, active: false };
    k.grants[1] = Grant { owner: Some(0), peer: None, phys_addr: 0x4010_1000, active: true };
    let (unmap, _) = sched::release_plan(&k, 0);
    assert_eq!(unmap[0], (None, None));
    assert_eq!(unmap[1], (None, Some(0)));
}

#[test]
fn release_plan_changes_where_cleanup_changes() {
    let mut k = running_kernel();
    k.grants[0] = Grant { owner: Some(0), peer: Some(1), phys_addr: 0x4010_0000, active: true };
    k.grants[1] = Grant { owner: Some(2), peer: Some(1), phys_addr: 0x4010_1000, active: true };
    k.irq_bindings[3] =
        IrqBinding { intid: 40, task_id: 0, notify_bit: 1, active: true, pending_ack: false };
    let (unmap, disable) = sched::release_plan(&k, 0);
    let mut after = k;
    sched::cleanup_task_resources(&mut after, 0);
    for g in 0..MAX_GRANTS {
        let changed = after.grants[g].active != k.grants[g].active
            || after.grants[g].owner != k.grants[g].owner
            || after.grants[g].peer != k.grants[g].peer;
        assert_eq!(unmap[g] != (None, None), changed);
    }
    for b in 0..MAX_IRQ_BINDINGS {
        assert_eq!(disable[b], after.irq_bindings[b].active != k.irq_bindings[b].active);
    }
}

#[test]
fn watchdog_victims_are_the_tasks_the_tick_faults() {
    let mut k = running_kernel();
    k.tick_count = 59;
    k.tcbs[0].heartbeat_interval = 50;
    k.tcbs[0].last_heartbeat = 5;
    k.tcbs[1].heartbeat_interval = 50;
    k.tcbs[1].last_heartbeat = 10;
    // at tick 60: 55 ticks without a heartbeat, and exactly 50
    assert_eq!(timer::watchdog_victims(&k), [true, false, false]);

    let before = k;
    let mut frame = TrapFrame::zeroed();
    timer::tick_handler(&mut k, &mut frame);
    assert_eq!(k.tick_count, 60);
    for t in 0..NUM_TASKS {
        let faulted_now = before.tcbs[t].state != TaskState::Faulted
            && k.tcbs[t].state == TaskState::Faulted;
        assert_eq!(faulted_now, t == 0);
    }
    assert_eq!(k.tcbs[0].fault_tick, 60);
}

#[test]
fn watchdog_victims_none_between_scans() {
    let mut k = running_kernel();
    k.tcbs[0].heartbeat_interval = 1;
    k.tcbs[0].last_heartbeat = 0;
    // tick 58 is no scan tick
    k.tick_count = 57;
    assert_eq!(timer::watchdog_victims(&k), [false; NUM_TASKS]);
    // the counter cannot advance
    k.tick_count = u64::MAX;
    assert_eq!(timer::watchdog_victims(&k), [false; NUM_TASKS]);
    // tick 60 is one
    k.tick_count = 59;
    assert_eq!(timer::watchdog_victims(&k), [true, false, false]);
    // a task that is Faulted, Exited or Inactive is no victim
    for state in [TaskState::Faulted, TaskState::Exited, TaskState::Inactive] {
        k.tcbs[0].state = state;
        assert_eq!(timer::watchdog_victims(&k), [false; NUM_TASKS]);
    }
    // a Blocked one is
    k.tcbs[0].state = TaskState::Blocked;
    assert_eq!(timer::watchdog_victims(&k), [true, false, false]);
}

#[test]
fn restart_is_marked_once() {
    let mut k = running_kernel();
    k.tcbs[1].state = TaskState::Faulted;
    k.tcbs[1].fault_tick = 0;
    k.tcbs[1].context.x[5] = 0xDEAD;
    k.tick_count = RESTART_DELAY_TICKS;
    assert_eq!(sched::take_restarted(&mut k), [false; NUM_TASKS]);

    let mut frame = TrapFrame::zeroed();
    sched::schedule(&mut k, &mut frame);
    assert_ne!(k.tcbs[1].state, TaskState::Faulted);
    assert!(k.tcbs[1].fresh);
    assert_eq!(k.tcbs[1].context.x[5], 0);

    let before = k;
    assert_eq!(sched::take_restarted(&mut k), [false, true, false]);
    // taken once; nothing else changed
    assert_eq!(sched::take_restarted(&mut k), [false; NUM_TASKS]);
    for t in 0..NUM_TASKS {
        assert!(!k.tcbs[t].fresh);
        assert_eq!(k.tcbs[t].state, before.tcbs[t].state);
        assert_eq!(k.tcbs[t].context.to_words(), before.tcbs[t].context.to_words());
    }
    assert_eq!(k.current, before.current);
}

#[test]
fn no_mark_before_the_delay_has_passed() {
    let mut k = running_kernel();
    k.tcbs[1].state = TaskState::Faulted;
    k.tcbs[1].fault_tick = 1;
    k.tick_count = RESTART_DELAY_TICKS;
    let mut frame = TrapFrame::zeroed();
    sched::schedule(&mut k, &mut frame);
    assert_eq!(k.tcbs[1].state, TaskState::Faulted);
    assert_eq!(sched::take_restarted(&mut k), [false; NUM_TASKS]);
}

#[test]
fn idle_restarted_at_once_is_marked() {
    let mut k = Kernel::new();
    k.tcbs[IDLE_TASK_ID].state = TaskState::Running;
    k.current = IDLE_TASK_ID;
    let mut frame = TrapFrame::zeroed();
    sched::fault_current_task(&mut k, &mut frame);
    // nothing else can run: the idle task is back at once
    assert_eq!(k.current, IDLE_TASK_ID);
    assert_eq!(k.tcbs[IDLE_TASK_ID].state, TaskState::Running);
    let mut want = [false; NUM_TASKS];
    want[IDLE_TASK_ID] = true;
    assert_eq!(sched::take_restarted(&mut k), want);
}

#[test]
fn stack_base_is_one_stack_below_the_top() {
    assert_eq!(sched::STACK_SIZE, 4096);
    assert_eq!(sched::stack_base(0x4020_1000), Some(0x4020_0000));
    assert_eq!(sched::stack_base(4096), Some(0));
    assert_eq!(sched::stack_base(4095), None);
    assert_eq!(sched::stack_base(0), None);
    assert_eq!(sched::stack_base(u64::MAX), Some(u64::MAX - 4096));
}

#[test]
fn fault_report_reads_the_syndrome() {
    // data abort from user mode, write, permission fault at level 3
    let esr = (0x24 << 26) | (1 << 6) | 0b001111;
    assert_eq!(
        exception::fault_report(esr),
        FaultReport {
            ec: 0x24,
            kind: AbortKind::DataAbort,
            lower_el: true,
            status: 0b001111,
            write: true
        }
    );
    // the same as a read, taken in the kernel
    let esr = (0x25 << 26) | 0b000101;
    assert_eq!(
        exception::fault_report(esr),
        FaultReport {
            ec: 0x25,
            kind: AbortKind::DataAbort,
            lower_el: false,
            status: 0b000101,
            write: false
        }
    );
    // an instruction abort has no access type, whatever bit 6 holds
    let esr = (0x20 << 26) | (1 << 6) | 0b000110;
    let r = exception::fault_report(esr);
    assert_eq!(r.kind, AbortKind::InstructionAbort);
    assert!(r.lower_el);
    assert!(!r.write);
    assert_eq!(r.status, 0b000110);
    assert_eq!(exception::fault_report(0x21 << 26).kind, AbortKind::InstructionAbort);
    assert!(!exception::fault_report(0x21 << 26).lower_el);
    assert_eq!(exception::fault_report(0x07 << 26).kind, AbortKind::FpTrap);
    assert_eq!(exception::fault_report(0x15 << 26).kind, AbortKind::Unhandled);
    assert_eq!(exception::fault_report(0).kind, AbortKind::Unhandled);
    assert_eq!(exception::fault_report(u64::MAX).ec, 0x3F);
}

#[test]
fn images_are_for_tasks_other_than_idle() {
    assert!(qemu_virt::image_target_ok(0, 0));
    assert!(qemu_virt::image_target_ok(1, 5));
    assert!(!qemu_virt::image_target_ok(IDLE_TASK_ID, 0));
    assert!(!qemu_virt::image_target_ok(NUM_TASKS, 0));
    assert!(!qemu_virt::image_target_ok(0, qemu_virt::MAX_ELF_TASKS));
}

#[test]
fn segment_pages_are_code_or_data() {
    assert_eq!(mmu::segment_page_template(5), mmu::USER_CODE_PAGE);
    assert_eq!(mmu::segment_page_template(1), mmu::USER_CODE_PAGE);
    assert_eq!(mmu::segment_page_template(6), mmu::USER_DATA_PAGE);
    assert_eq!(mmu::segment_page_template(4), mmu::USER_DATA_PAGE);
    assert_eq!(mmu::segment_page_template(0), mmu::USER_DATA_PAGE);
    // a segment that is writable and executable is mapped as code: not writable
    assert_eq!(mmu::segment_page_template(7), mmu::USER_CODE_PAGE);
}

/// Task 0 sends `payload` on endpoint 0, where nobody waits, and blocks;
/// the task that runs then receives there.
#[test]
fn message_waits_for_the_receiver() {
    let mut k = running_kernel();
    k.tcbs[0].priority = 3;
    k.tcbs[0].base_priority = 2;
    let mut frame = TrapFrame::zeroed();
    let payload = [0x11, 0x22, 0x33, 0x44];
    frame.x[..4].copy_from_slice(&payload);
    frame.x[4] = 0x55;
    ipc::sys_send(&mut k, &mut frame, 0);
    assert_eq!(k.tcbs[0].state, TaskState::Blocked);
    assert!(k.endpoints[0].sender_queue.contains(0));
    let b = k.current;
    assert_eq!(b, 1);

    frame.x[0] = 0xAA;
    frame.x[9] = 0x99;
    ipc::sys_recv(&mut k, &mut frame, 0);
    assert!(!k.endpoints[0].sender_queue.contains(0));
    assert_eq!(k.endpoints[0].sender_queue.count, 0);
    assert_eq!(frame.x[..4], payload);
    assert_eq!(k.tcbs[b].context.x[..4], payload);
    // the rest of the receiver's frame is its own
    assert_eq!(frame.x[4], 0);
    assert_eq!(frame.x[9], 0x99);
    assert_eq!(k.current, b);
    assert_eq!(k.tcbs[b].state, TaskState::Running);
    assert_eq!(k.tcbs[0].state, TaskState::Ready);
    assert_eq!(k.tcbs[0].priority, 2);
}

#[test]
fn tick_outcome_and_victims_agree() {
    let mut k = running_kernel();
    k.tick_count = 9;
    k.tcbs[1].heartbeat_interval = 3;
    k.tcbs[1].last_heartbeat = 2;
    k.endpoints[2].receiver = Some(1);
    k.tcbs[1].state = TaskState::Blocked;
    let victims = timer::watchdog_victims(&k);
    assert_eq!(victims, [false, true, false]);
    let mut frame = TrapFrame::zeroed();
    let out = exception::exception_dispatch_irq(&mut k, &mut frame, timer::TIMER_INTID);
    assert_eq!(out, IrqOutcome::Tick);
    assert_eq!(k.tcbs[1].state, TaskState::Faulted);
    assert_eq!(k.endpoints[2].receiver, None);
}

#[test]
fn segment_pages_start_at_a_page_and_end_with_the_segment() {
    assert_eq!(mmu::segment_pages(0x4010_0000, 0x1000), Some((0x4010_0000, 0x4010_1000)));
    assert_eq!(mmu::segment_pages(0x4010_0123, 0x2000), Some((0x4010_0000, 0x4010_2123)));
    assert_eq!(mmu::segment_pages(0x4010_0FFF, 0), Some((0x4010_0000, 0x4010_0FFF)));
    assert_eq!(mmu::segment_pages(0, 0), Some((0, 0)));
    assert_eq!(mmu::segment_pages(u64::MAX, 0), Some((u64::MAX - 0xFFF, u64::MAX)));
    assert_eq!(mmu::segment_pages(u64::MAX, 1), None);
    assert_eq!(mmu::segment_pages(1, u64::MAX), None);
    // the pages of a segment that crosses two page boundaries
    let (first, end) = mmu::segment_pages(0x4010_0F00, 0x1200).unwrap();
    let pages: Vec<u64> = (first..end).step_by(4096).collect();
    assert_eq!(pages, [0x4010_0000, 0x4010_1000, 0x4010_2000]);
}
