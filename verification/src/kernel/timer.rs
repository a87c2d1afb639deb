//! The system tick: budget accounting, epochs and the watchdog cadence.

use vstd::prelude::*;
use crate::exception::TrapFrame;
use crate::kernel::sched::{
    elapsed_ticks,
    epoch_reset,
    epoch_started,
    lemma_watchdog_scanned_frame,
    overdue,
    resumed_frame,
    schedule,
    scheduled,
    watchdog_scan,
    watchdog_scanned,
    watchdog_should_fault,
    TaskState,
    Tcb,
    EPOCH_LENGTH,
    NUM_TASKS,
    WATCHDOG_SCAN_PERIOD,
};
use crate::kernel::state::{Kernel, KernelView};

verus! {

/// Interrupt id of the tick timer.
pub const TIMER_INTID: u32 = 30;

/// Get current tick count
pub fn tick_count(k: &Kernel) -> (ticks: u64)
    ensures
        ticks == k.tick_count,
{
    k.tick_count
}

/// Timer counts per tick for a timer that runs at `freq` Hz and a tick
/// of `tick_ms` milliseconds.
pub fn tick_interval(freq: u64, tick_ms: u32) -> (ticks: u64)
    requires
        freq * tick_ms <= u64::MAX,
    ensures
        ticks == freq * tick_ms / 1000,
{
    freq * (tick_ms as u64) / 1000
}

/// The text of a number printed in decimal: a buffer and the number of
/// digits, as [`crate::uart::uart_print_dec`] returns them.
pub fn print_decimal(val: u32) -> (r: ([u8; 10], usize))
    ensures
        r.1 == crate::uart::dec_len(val as nat),
        1 <= r.1 <= 10,
        forall|i: int|
            0 <= i < r.1 ==> r.0[i] == crate::uart::dec_digit_from_right(
                val as nat,
                (r.1 - 1 - i) as nat,
            ),
{
    crate::uart::uart_print_dec(val)
}

/// The state once a tick is counted: the tick counter and the epoch
/// counter advance and the running task is charged one tick.
pub open spec fn tick_counted(k: KernelView) -> KernelView {
    KernelView {
        tick_count: (k.tick_count + 1) as u64,
        epoch_ticks: (k.epoch_ticks + 1) as u64,
        tcbs: k.tcbs.update(
            k.current as int,
            Tcb {
                ticks_used: (k.tcbs[k.current as int].ticks_used + 1) as u64,
                ..k.tcbs[k.current as int]
            },
        ),
        ..k
    }
}

/// The state after the housekeeping of a tick: the tick is counted, a
/// new epoch starts if the epoch is over, and the watchdog scans the
/// tasks on every tick that is a multiple of the scan period.
pub open spec fn tick_accounted(k: KernelView) -> KernelView {
    let k1 = tick_counted(k);
    let k2 = if k1.epoch_ticks >= EPOCH_LENGTH {
        epoch_started(k1)
    } else {
        k1
    };
    if k1.tick_count % WATCHDOG_SCAN_PERIOD == 0 {
        watchdog_scanned(k2, NUM_TASKS as nat)
    } else {
        k2
    }
}

/// The watchdog faults task `t` on the tick that follows state `k`:
/// that tick is one on which the watchdog scans, and the task is
/// overdue then.
pub open spec fn tick_faults(k: KernelView, t: int) -> bool {
    &&& k.tick_count < u64::MAX
    &&& (k.tick_count + 1) % (WATCHDOG_SCAN_PERIOD as int) == 0
    &&& overdue(k.tcbs[t], (k.tick_count + 1) as u64)
}

/// The tasks that the watchdog faults on the next tick, read off the
/// state before the tick.  What each of them holds is released in the
/// order of their indices.
pub fn watchdog_victims(k: &Kernel) -> (victims: [bool; NUM_TASKS])
    ensures
        forall|t: int| 0 <= t < NUM_TASKS ==> #[trigger] victims[t] == tick_faults(k@, t),
{
    let mut victims = [false; NUM_TASKS];
    if k.tick_count == u64::MAX {
        return victims;
    }
    let now = k.tick_count + 1;
    if now % WATCHDOG_SCAN_PERIOD != 0 {
        return victims;
    }
    let mut i: usize = 0;
    while i < NUM_TASKS
        invariant
            i <= NUM_TASKS,
            now == k.tick_count + 1,
            now % WATCHDOG_SCAN_PERIOD == 0,
            forall|t: int| 0 <= t < i ==> #[trigger] victims[t] == tick_faults(k@, t),
        decreases NUM_TASKS - i,
    {
        let st = k.tcbs[i].state;
        let alive = st != TaskState::Faulted && st != TaskState::Inactive && st
            != TaskState::Exited;
        victims[i] = alive && watchdog_should_fault(
            k.tcbs[i].heartbeat_interval,
            elapsed_ticks(now, k.tcbs[i].last_heartbeat),
        );
        i += 1;
    }
    victims
}

/// The housekeeping of a tick faults the tasks that [`tick_faults`]
/// names, at the tick then counted, and no others: any other task is
/// Faulted afterwards just if it was before, since the same tick.
pub proof fn lemma_tick_victims(k: KernelView, t: int)
    requires
        k.wf(),
        k.tick_count < u64::MAX,
        0 <= t < NUM_TASKS,
    ensures
        tick_faults(k, t) ==> tick_accounted(k).tcbs[t].state == TaskState::Faulted
            && tick_accounted(k).tcbs[t].fault_tick == k.tick_count + 1,
        !tick_faults(k, t) ==> (tick_accounted(k).tcbs[t].state == TaskState::Faulted) == (
        k.tcbs[t].state == TaskState::Faulted) && tick_accounted(k).tcbs[t].fault_tick
            == k.tcbs[t].fault_tick,
{
    let k1 = tick_counted(k);
    let k2 = if k1.epoch_ticks >= EPOCH_LENGTH {
        epoch_started(k1)
    } else {
        k1
    };
    assert(k2.wf());
    lemma_watchdog_scanned_frame(k2, NUM_TASKS as nat);
}

/// Handle a timer tick: count it, charge the running task, start a new
/// epoch when the epoch is over, run the watchdog on its cadence, and
/// make a scheduling decision.  The timer is to be re-armed.
pub fn tick_handler(k: &mut Kernel, frame: &mut TrapFrame)
    requires
        old(k).wf(),
        old(k).tick_count < u64::MAX,
        old(k).epoch_ticks < u64::MAX,
        old(k).tcbs[old(k).current as int].ticks_used < u64::MAX,
    ensures
        final(k).keeps_identity(old(k)),
        final(k).wf(),
        final(k)@ == scheduled(tick_accounted(old(k)@), *old(frame)),
        *final(frame) == resumed_frame(tick_accounted(old(k)@), *old(frame)),
        old(k)@.senders_in_range() ==> final(k)@.senders_in_range(),
        crate::kernel::irq::targets_in_range(old(k).irq_bindings@)
            ==> crate::kernel::irq::targets_in_range(final(k).irq_bindings@),
        crate::kernel::waiting::orderly(old(k)@) ==> crate::kernel::waiting::orderly(final(k)@),
{
    proof {
        if crate::kernel::waiting::orderly(old(k)@) {
            crate::kernel::waiting::lemma_tick_keeps_order(old(k)@, *old(frame));
        }
    }
    k.tick_count += 1;
    let current = k.current;
    k.tcbs[current].ticks_used += 1;
    k.epoch_ticks += 1;
    proof {
        assert(k@.tcbs =~= tick_counted(old(k)@).tcbs);
        assert(k@.endpoints =~= old(k)@.endpoints);
        assert(k@ == tick_counted(old(k)@));
        crate::kernel::state::lemma_tables_kept(old(k), k);
    }
    if k.epoch_ticks >= EPOCH_LENGTH {
        epoch_reset(k);
    }
    if k.tick_count % WATCHDOG_SCAN_PERIOD == 0 {
        watchdog_scan(k);
    }
    schedule(k, frame);
}

} // verus!
