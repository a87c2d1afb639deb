use aegis_os::exception::TrapFrame;
use aegis_os::sched::{self, TaskState, EPOCH_LENGTH, RESTART_DELAY_TICKS};
use aegis_os::state::Kernel;
use aegis_os::timer::{self, tick_handler};

fn fresh_kernel() -> Kernel {
    let mut k = Kernel::new();
    for i in 0..3 {
        k.tcbs[i].state = TaskState::Ready;
    }
    k.tcbs[0].state = TaskState::Running;
    k
}

#[test]
fn scenario_exhausted_budget_yields_to_lower_priority() {
    let mut k = fresh_kernel();
    k.tcbs[0].priority = 5;
    k.tcbs[0].base_priority = 5;
    k.tcbs[0].time_budget = 2;
    k.tcbs[1].priority = 1;
    k.tcbs[1].base_priority = 1;
    k.tcbs[1].time_budget = 0;
    let mut frame = TrapFrame::zeroed();

    // First tick: one of two ticks used, the task keeps the CPU.
    tick_handler(&mut k, &mut frame);
    assert_eq!(k.tcbs[0].ticks_used, 1);
    assert_eq!(k.current, 0);

    // Second tick: the budget is used up; the lower-priority task with an
    // unlimited budget runs, not the idle task.
    tick_handler(&mut k, &mut frame);
    assert_eq!(k.tcbs[0].ticks_used, 2);
    assert_eq!(k.current, 1);
    assert_eq!(k.tcbs[1].state, TaskState::Running);
    assert_eq!(k.tcbs[0].state, TaskState::Ready);
    assert_eq!(k.tcbs[2].state, TaskState::Ready);

    // It stays that way until the epoch ends.
    for _ in 0..10 {
        tick_handler(&mut k, &mut frame);
        assert_eq!(k.current, 1);
    }
}

#[test]
fn epoch_end_replenishes_budgets() {
    let mut k = fresh_kernel();
    k.tcbs[0].priority = 5;
    k.tcbs[0].time_budget = 2;
    k.tcbs[1].priority = 1;
    k.tcbs[2].state = TaskState::Inactive;
    k.tcbs[2].ticks_used = 9;
    let mut frame = TrapFrame::zeroed();
    for _ in 0..(EPOCH_LENGTH - 1) {
        tick_handler(&mut k, &mut frame);
    }
    assert_eq!(k.epoch_ticks, 99);
    assert_eq!(k.tcbs[0].ticks_used, 2);
    assert_eq!(k.tcbs[1].ticks_used, 97);
    assert_eq!(k.current, 1);

    tick_handler(&mut k, &mut frame);
    assert_eq!(k.tick_count, 100);
    assert_eq!(k.epoch_ticks, 0);
    assert_eq!(k.tcbs[0].ticks_used, 0);
    assert_eq!(k.tcbs[1].ticks_used, 0);
    // an Inactive task is not touched
    assert_eq!(k.tcbs[2].ticks_used, 9);
    // with its budget back the high-priority task runs again
    assert_eq!(k.current, 0);
}

#[test]
fn watchdog_runs_every_tenth_tick() {
    let mut k = fresh_kernel();
    k.tcbs[1].heartbeat_interval = 3;
    k.tcbs[1].last_heartbeat = 0;
    k.tcbs[1].priority = 4;
    k.tcbs[1].base_priority = 2;
    k.endpoints[1].receiver = Some(1);
    let mut frame = TrapFrame::zeroed();
    for _ in 0..9 {
        tick_handler(&mut k, &mut frame);
    }
    // overdue since tick 4, but the watchdog has not looked yet
    assert_ne!(k.tcbs[1].state, TaskState::Faulted);
    tick_handler(&mut k, &mut frame);
    assert_eq!(k.tick_count, 10);
    assert_eq!(k.tcbs[1].state, TaskState::Faulted);
    assert_eq!(k.tcbs[1].fault_tick, 10);
    assert_eq!(k.tcbs[1].priority, 2);
    assert_eq!(k.tcbs[1].heartbeat_interval, 0);
    assert_eq!(k.endpoints[1].receiver, None);
    assert_ne!(k.current, 1);

    // the restart delay later the task is back
    for _ in 0..(RESTART_DELAY_TICKS - 1) {
        tick_handler(&mut k, &mut frame);
    }
    assert_eq!(k.tcbs[1].state, TaskState::Faulted);
    tick_handler(&mut k, &mut frame);
    assert_eq!(k.tick_count, 110);
    assert_ne!(k.tcbs[1].state, TaskState::Faulted);
    assert_eq!(k.tcbs[1].last_heartbeat, 110);
}

#[test]
fn watchdog_scan_releases_everything_the_task_held() {
    let mut k = fresh_kernel();
    k.tick_count = 70;
    k.tcbs[1].heartbeat_interval = 50;
    k.tcbs[1].last_heartbeat = 10;
    k.endpoints[0].sender_queue.push(1);
    k.endpoints[0].sender_queue.push(2);
    k.endpoints[3].receiver = Some(1);
    assert_eq!(aegis_os::grant::grant_create(&mut k.grants, 0, 1, 2), 0);
    assert_eq!(aegis_os::irq::irq_bind(&mut k.irq_bindings, 40, 1, 1), 0);
    sched::watchdog_scan(&mut k);
    assert_eq!(k.tcbs[1].state, TaskState::Faulted);
    assert_eq!(k.tcbs[1].fault_tick, 70);
    assert_eq!(k.tcbs[1].heartbeat_interval, 0);
    assert!(!k.endpoints[0].sender_queue.contains(1));
    assert!(k.endpoints[0].sender_queue.contains(2));
    assert_eq!(k.endpoints[3].receiver, None);
    assert!(!k.grants[0].active);
    assert!(!k.irq_bindings[0].active);
    // exactly at the interval is not overdue
    let mut k = fresh_kernel();
    k.tick_count = 60;
    k.tcbs[1].heartbeat_interval = 50;
    k.tcbs[1].last_heartbeat = 10;
    sched::watchdog_scan(&mut k);
    assert_eq!(k.tcbs[1].state, TaskState::Ready);
}

#[test]
fn tick_arithmetic() {
    assert_eq!(timer::tick_interval(62_500_000, 10), 625_000);
    assert_eq!(timer::tick_interval(1000, 1), 1);
    assert_eq!(timer::TIMER_INTID, 30);
    assert_eq!(sched::elapsed_ticks(70, 10), 60);
    assert_eq!(sched::elapsed_ticks(10, 10), 0);
    // the tick counter wraps around
    assert_eq!(sched::elapsed_ticks(5, u64::MAX - 4), 10);
}

#[test]
fn restart_delay_counts_across_the_wrap() {
    let mut k = fresh_kernel();
    k.tcbs[1].state = TaskState::Faulted;
    k.tcbs[1].fault_tick = u64::MAX - 49;
    k.tick_count = 49;
    let mut frame = TrapFrame::zeroed();
    sched::schedule(&mut k, &mut frame);
    assert_eq!(k.tcbs[1].state, TaskState::Faulted);
    k.tick_count = 50;
    sched::schedule(&mut k, &mut frame);
    assert_ne!(k.tcbs[1].state, TaskState::Faulted);
}
