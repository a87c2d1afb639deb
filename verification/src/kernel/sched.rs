//! Fixed-priority preemptive scheduler over a static task table.
//!
//! Each task has a saved trap frame, a state, an effective and a base
//! priority, a time budget per epoch (0 = unlimited) and a watchdog
//! heartbeat interval (0 = disabled).

use vstd::prelude::*;
use crate::exception::{zero_frame, TrapFrame};
use crate::kernel::cap::CapBits;
use crate::kernel::grant::MAX_GRANTS;
use crate::kernel::irq::MAX_IRQ_BINDINGS;
use crate::kernel::state::{Kernel, KernelView};

verus! {

/// State of a task.
#[derive(Clone, Copy, PartialEq, Eq, Debug, Structural)]
pub enum TaskState {
    /// The slot is not in use; the task is never scheduled.
    Inactive,
    /// The task can run.
    Ready,
    /// The task has the CPU.
    Running,
    /// The task waits for a message or a notification.
    Blocked,
    /// The task misbehaved; it is restarted after a delay.
    Faulted,
    /// The task ended itself; it is never restarted.
    Exited,
}

/// Task control block, one per task.
#[derive(Clone, Copy, Debug)]
#[verifier::ext_equal]
pub struct Tcb {
    pub context: TrapFrame,
    pub state: TaskState,
    pub id: u16,
    /// top of the task's kernel stack
    pub stack_top: u64,
    /// entry address the task starts at, again after a restart
    pub entry_point: u64,
    /// top of the user stack the task starts with
    pub user_stack_top: u64,
    /// tick at which the task was marked Faulted
    pub fault_tick: u64,
    /// capability bitmask; a restart keeps it
    pub caps: CapBits,
    /// address-space register value of the task
    pub ttbr0: u64,
    /// pending notification bits
    pub notify_pending: u64,
    /// the task is blocked waiting for a notification
    pub notify_waiting: bool,
    /// the task whose reply the task waits for, after a call that
    /// reached it
    pub awaits: Option<usize>,
    /// effective priority (0 = lowest)
    pub priority: u8,
    /// priority the task was given at boot
    pub base_priority: u8,
    /// most ticks the task may use per epoch (0 = unlimited)
    pub time_budget: u64,
    /// ticks used in the current epoch
    pub ticks_used: u64,
    /// most ticks between two heartbeats (0 = watchdog disabled)
    pub heartbeat_interval: u64,
    /// tick of the last heartbeat
    pub last_heartbeat: u64,
    /// the task was restarted and its user stack still holds what the
    /// task left there: to be cleared before the task runs
    pub fresh: bool,
}

/// Number of task slots: three, for the two built-in tasks and the idle
/// task.  A machine that also runs loaded task images needs a larger
/// table, of eight slots for instance; the tables and contracts are
/// stated over this constant, and the idle task is always the last
/// slot.
pub const NUM_TASKS: usize = 3;

/// Index of the idle task (always the last task slot).
pub const IDLE_TASK_ID: usize = NUM_TASKS - 1;

/// Ticks a faulted task waits before it is restarted.
pub const RESTART_DELAY_TICKS: u64 = 100;

/// Epoch length in ticks.
pub const EPOCH_LENGTH: u64 = 100;

/// The watchdog scans the tasks every this many ticks.
pub const WATCHDOG_SCAN_PERIOD: u64 = 10;

/// Boot configuration of one task.
#[derive(Clone, Copy, Debug)]
pub struct TaskMetadata {
    pub caps: CapBits,
    pub priority: u8,
    pub time_budget: u64,
    pub heartbeat_interval: u64,
}

/// What a task keeps for life, whatever happens to it: its id, its
/// capabilities, its base priority and budget, its entry point, its
/// stacks and its address space.
pub open spec fn same_identity(a: Tcb, b: Tcb) -> bool {
    &&& a.id == b.id
    &&& a.caps == b.caps
    &&& a.base_priority == b.base_priority
    &&& a.time_budget == b.time_budget
    &&& a.entry_point == b.entry_point
    &&& a.stack_top == b.stack_top
    &&& a.user_stack_top == b.user_stack_top
    &&& a.ttbr0 == b.ttbr0
}

/// The control block of an unused slot: everything zero, state Inactive.
pub open spec fn empty_tcb_spec() -> Tcb {
    Tcb {
        context: zero_frame(),
        state: TaskState::Inactive,
        id: 0,
        stack_top: 0,
        entry_point: 0,
        user_stack_top: 0,
        fault_tick: 0,
        caps: 0,
        ttbr0: 0,
        notify_pending: 0,
        notify_waiting: false,
        awaits: None,
        priority: 0,
        base_priority: 0,
        time_budget: 0,
        ticks_used: 0,
        heartbeat_interval: 0,
        last_heartbeat: 0,
        fresh: false,
    }
}

/// The control block of an unused slot.
pub fn empty_tcb() -> (t: Tcb)
    ensures
        t == empty_tcb_spec(),
{
    Tcb {
        context: TrapFrame::zeroed(),
        state: TaskState::Inactive,
        id: 0,
        stack_top: 0,
        entry_point: 0,
        user_stack_top: 0,
        fault_tick: 0,
        caps: 0,
        ttbr0: 0,
        notify_pending: 0,
        notify_waiting: false,
        awaits: None,
        priority: 0,
        base_priority: 0,
        time_budget: 0,
        ticks_used: 0,
        heartbeat_interval: 0,
        last_heartbeat: 0,
        fresh: false,
    }
}

/// Processor state a task starts with: user mode, interrupts enabled.
pub const SPSR_USER: u64 = 0;

/// Ticks from `then` to `now` on a counter that wraps around.
pub open spec fn ticks_since(now: u64, then: u64) -> u64 {
    if now >= then {
        (now - then) as u64
    } else {
        (now + 0x1_0000_0000_0000_0000 - then) as u64
    }
}

/// Ticks from `then` to `now` on a counter that wraps around.
pub fn elapsed_ticks(now: u64, then: u64) -> (d: u64)
    ensures
        d == ticks_since(now, then),
{
    now.wrapping_sub(then)
}

/// The task has not used up its budget for this epoch.  A budget of zero
/// is unlimited.
pub open spec fn budget_left(t: Tcb) -> bool {
    t.time_budget == 0 || t.ticks_used < t.time_budget
}

/// The task can be selected to run: it is Ready and has budget left.
pub open spec fn eligible(t: Tcb) -> bool {
    t.state == TaskState::Ready && budget_left(t)
}

/// The frame a task starts with: every register zero, the return address
/// at the entry point, the user stack at its top.
pub open spec fn start_frame(entry_point: u64, user_stack_top: u64) -> TrapFrame {
    TrapFrame {
        sp_el0: user_stack_top,
        elr_el1: entry_point,
        spsr_el1: SPSR_USER,
        ..zero_frame()
    }
}

/// A faulted task after its restart at tick `now`: Ready with a fresh
/// frame, no notifications, nobody to wait for, base priority, an unused
/// budget and a fresh heartbeat, and marked for its user stack to be
/// cleared.  Identity, entry point, stacks, capabilities, address space,
/// base priority, budget and heartbeat interval stay.
pub open spec fn restarted(t: Tcb, now: u64) -> Tcb {
    Tcb {
        context: start_frame(t.entry_point, t.user_stack_top),
        state: TaskState::Ready,
        notify_pending: 0,
        notify_waiting: false,
        awaits: None,
        priority: t.base_priority,
        ticks_used: 0,
        last_heartbeat: now,
        fresh: true,
        ..t
    }
}

/// What [`restart_task`] makes of a control block: a Faulted task is
/// restarted, any other is left alone.
pub open spec fn restart_if_faulted(t: Tcb, now: u64) -> Tcb {
    if t.state == TaskState::Faulted {
        restarted(t, now)
    } else {
        t
    }
}

/// The task is Faulted and its restart delay has passed.
pub open spec fn restart_due(t: Tcb, now: u64) -> bool {
    t.state == TaskState::Faulted && ticks_since(now, t.fault_tick) >= RESTART_DELAY_TICKS
}

/// A control block after the restart check of a scheduling decision.
pub open spec fn revived(t: Tcb, now: u64) -> Tcb {
    if restart_due(t, now) {
        restarted(t, now)
    } else {
        t
    }
}

/// Get current task ID
pub fn current_task_id(k: &Kernel) -> (id: u16)
    requires
        k.current < NUM_TASKS,
    ensures
        id == k.tcbs[k.current as int].id,
{
    k.tcbs[k.current].id
}

/// Set task state.  Does nothing if `task_idx` is out of range.
pub fn set_task_state(k: &mut Kernel, task_idx: usize, state: TaskState)
    ensures
        final(k).same_but_tcbs(old(k)),
        task_idx < NUM_TASKS ==> final(k).tcbs@ == old(k).tcbs@.update(
            task_idx as int,
            Tcb { state, ..old(k).tcbs[task_idx as int] },
        ),
        task_idx >= NUM_TASKS ==> *final(k) == *old(k),
{
    if task_idx < NUM_TASKS {
        k.tcbs[task_idx].state = state;
    }
}

/// Get a register value from a task's saved context
pub fn get_task_reg(k: &Kernel, task_idx: usize, reg: usize) -> (val: u64)
    requires
        task_idx < NUM_TASKS,
        reg < 31,
    ensures
        val == k.tcbs[task_idx as int].context.x[reg as int],
{
    k.tcbs[task_idx].context.x[reg]
}

/// Set a register value in a task's saved context
pub fn set_task_reg(k: &mut Kernel, task_idx: usize, reg: usize, val: u64)
    requires
        task_idx < NUM_TASKS,
        reg < 31,
    ensures
        final(k).same_but_tcbs(old(k)),
        final(k).tcbs@ == old(k).tcbs@.update(
            task_idx as int,
            Tcb {
                context: TrapFrame {
                    x: vstd::array::spec_array_update(
                        old(k).tcbs[task_idx as int].context.x,
                        reg as int,
                        val,
                    ),
                    ..old(k).tcbs[task_idx as int].context
                },
                ..old(k).tcbs[task_idx as int]
            },
        ),
        final(k).tcbs[task_idx as int].context.x@ == old(k).tcbs[task_idx as int].context.x@.update(
            reg as int,
            val,
        ),
{
    k.tcbs[task_idx].context.x[reg] = val;
}

/// Save a trap frame into a task's control block
pub fn save_frame(k: &mut Kernel, task_idx: usize, frame: &TrapFrame)
    requires
        task_idx < NUM_TASKS,
    ensures
        final(k).same_but_tcbs(old(k)),
        final(k).tcbs@ == old(k).tcbs@.update(
            task_idx as int,
            Tcb { context: *frame, ..old(k).tcbs[task_idx as int] },
        ),
{
    k.tcbs[task_idx].context = *frame;
}

/// Load a task's saved context into a trap frame
pub fn load_frame(k: &Kernel, task_idx: usize, frame: &mut TrapFrame)
    requires
        task_idx < NUM_TASKS,
    ensures
        *final(frame) == k.tcbs[task_idx as int].context,
{
    *frame = k.tcbs[task_idx].context;
}

/// Restart a faulted task: fresh frame at the entry point, Ready, with
/// its scheduling state reset, and marked for its user stack to be
/// cleared.  A task that is not Faulted is left alone.  Capabilities and
/// base priority survive.
pub fn restart_task(k: &mut Kernel, task_idx: usize)
    requires
        task_idx < NUM_TASKS,
    ensures
        final(k).keeps_identity(old(k)),
        final(k).same_but_tcbs(old(k)),
        final(k).tcbs@ == old(k).tcbs@.update(
            task_idx as int,
            restart_if_faulted(old(k).tcbs[task_idx as int], old(k).tick_count),
        ),
{
    if k.tcbs[task_idx].state != TaskState::Faulted {
        assert(k.tcbs@ =~= old(k).tcbs@.update(task_idx as int, old(k).tcbs[task_idx as int]));
        return ;
    }
    k.tcbs[task_idx].context = TrapFrame::zeroed();
    k.tcbs[task_idx].context.elr_el1 = k.tcbs[task_idx].entry_point;
    k.tcbs[task_idx].context.spsr_el1 = 0x000;
    k.tcbs[task_idx].context.sp_el0 = k.tcbs[task_idx].user_stack_top;

    k.tcbs[task_idx].state = TaskState::Ready;
    k.tcbs[task_idx].notify_pending = 0;
    k.tcbs[task_idx].notify_waiting = false;
    k.tcbs[task_idx].awaits = None;

    k.tcbs[task_idx].priority = k.tcbs[task_idx].base_priority;
    k.tcbs[task_idx].ticks_used = 0;
    k.tcbs[task_idx].last_heartbeat = k.tick_count;
    k.tcbs[task_idx].fresh = true;
}

/// What is to be undone in hardware when the resources of `task` are
/// released, read off the state as it is before the release.
///
/// For each grant slot, the tasks from whose address space the granted
/// page is to be unmapped: the peer and the owner of an active grant
/// that `task` owns; `task` alone for an active grant whose peer it is;
/// nobody otherwise.  For each IRQ binding slot, whether its interrupt
/// is to be disabled: it is for every active binding of `task`.
pub fn release_plan(k: &Kernel, task: usize) -> (plan: (
    [(Option<usize>, Option<usize>); MAX_GRANTS],
    [bool; MAX_IRQ_BINDINGS],
))
    ensures
        forall|g: int|
            0 <= g < MAX_GRANTS ==> #[trigger] plan.0[g] == (if k.grants[g].active
                && k.grants[g].owner == Some(task) {
                (k.grants[g].peer, Some(task))
            } else if k.grants[g].active && k.grants[g].peer == Some(task) {
                (None, Some(task))
            } else {
                (None, None)
            }),
        forall|b: int|
            0 <= b < MAX_IRQ_BINDINGS ==> #[trigger] plan.1[b] == (k.irq_bindings[b].active
                && k.irq_bindings[b].task_id == task),
{
    let mut unmap: [(Option<usize>, Option<usize>); MAX_GRANTS] = [(None, None); MAX_GRANTS];
    let mut g: usize = 0;
    while g < MAX_GRANTS
        invariant
            g <= MAX_GRANTS,
            forall|j: int|
                0 <= j < g ==> #[trigger] unmap[j] == (if k.grants[j].active && k.grants[j].owner
                    == Some(task) {
                    (k.grants[j].peer, Some(task))
                } else if k.grants[j].active && k.grants[j].peer == Some(task) {
                    (None, Some(task))
                } else {
                    (None, None)
                }),
        decreases MAX_GRANTS - g,
    {
        let grant = &k.grants[g];
        unmap[g] = if grant.active && is_task(grant.owner, task) {
            (grant.peer, Some(task))
        } else if grant.active && is_task(grant.peer, task) {
            (None, Some(task))
        } else {
            (None, None)
        };
        g += 1;
    }
    let mut disable = [false; MAX_IRQ_BINDINGS];
    let mut b: usize = 0;
    while b < MAX_IRQ_BINDINGS
        invariant
            b <= MAX_IRQ_BINDINGS,
            forall|j: int|
                0 <= j < b ==> #[trigger] disable[j] == (k.irq_bindings[j].active
                    && k.irq_bindings[j].task_id == task),
        decreases MAX_IRQ_BINDINGS - b,
    {
        disable[b] = k.irq_bindings[b].active && k.irq_bindings[b].task_id == task;
        b += 1;
    }
    (unmap, disable)
}

/// Whether `slot` names `task`.
fn is_task(slot: Option<usize>, task: usize) -> (same: bool)
    ensures
        same == (slot == Some(task)),
{
    match slot {
        Some(t) => t == task,
        None => false,
    }
}

/// The release changes a grant just where the grant is active and the
/// task is its owner or its peer, and a binding just where it is an
/// active binding of the task: the slots for which [`release_plan`]
/// names somebody to unmap the page from, or asks for the interrupt to
/// be disabled.
pub proof fn lemma_release_plan_matches(k: KernelView, task: usize, g: int, b: int)
    requires
        k.wf(),
        task < NUM_TASKS,
        0 <= g < MAX_GRANTS,
        0 <= b < MAX_IRQ_BINDINGS,
    ensures
        (k.grants[g].active && (k.grants[g].owner == Some(task) || k.grants[g].peer == Some(task)))
            == (cleaned_up(k, task).grants[g] != k.grants[g]),
        (k.irq_bindings[b].active && k.irq_bindings[b].task_id == task) == (cleaned_up(
            k,
            task,
        ).irq_bindings[b] != k.irq_bindings[b]),
{
}

/// A control block once its user stack is cleared.
pub open spec fn stack_cleared(t: Tcb) -> Tcb {
    Tcb { fresh: false, ..t }
}

/// The state once the user stacks of all restarted tasks are cleared.
pub open spec fn restarts_taken(k: KernelView) -> KernelView {
    KernelView { tcbs: Seq::new(NUM_TASKS as nat, |t: int| stack_cleared(k.tcbs[t])), ..k }
}

/// The tasks that were restarted since this was last asked: for each of
/// them the user stack, the page below `user_stack_top`, is to be
/// zeroed before the task runs, so that nothing of its former life
/// reaches the new one.  The marks are cleared; nothing else changes.
pub fn take_restarted(k: &mut Kernel) -> (marks: [bool; NUM_TASKS])
    ensures
        forall|t: int| 0 <= t < NUM_TASKS ==> #[trigger] marks[t] == old(k).tcbs[t].fresh,
        final(k)@ == restarts_taken(old(k)@),
        forall|t: int| 0 <= t < NUM_TASKS ==> !(#[trigger] final(k).tcbs[t]).fresh,
        final(k).same_but_tcbs(old(k)),
        final(k).keeps_identity(old(k)),
        old(k).wf() ==> final(k).wf(),
        old(k)@.senders_in_range() ==> final(k)@.senders_in_range(),
        crate::kernel::waiting::orderly(old(k)@) ==> crate::kernel::waiting::orderly(final(k)@),
{
    let mut marks = [false; NUM_TASKS];
    let mut i: usize = 0;
    while i < NUM_TASKS
        invariant
            i <= NUM_TASKS,
            k.same_but_tcbs(old(k)),
            forall|t: int| 0 <= t < i ==> #[trigger] marks[t] == old(k).tcbs[t].fresh,
            forall|t: int| 0 <= t < i ==> #[trigger] k.tcbs[t] == stack_cleared(old(k).tcbs[t]),
            forall|t: int| i <= t < NUM_TASKS ==> #[trigger] k.tcbs[t] == old(k).tcbs[t],
        decreases NUM_TASKS - i,
    {
        marks[i] = k.tcbs[i].fresh;
        k.tcbs[i].fresh = false;
        i += 1;
    }
    proof {
        assert(k@.tcbs =~= restarts_taken(old(k)@).tcbs);
        if old(k).wf() {
            crate::kernel::state::lemma_tables_kept(old(k), k);
        }
        if crate::kernel::waiting::orderly(old(k)@) {
            crate::kernel::waiting::lemma_order_same_waiters(old(k)@, k@);
        }
    }
    marks
}

/// A scheduling decision marks the tasks that it restarts, and no
/// others: a task whose restart delay has passed, and the idle task
/// when it had faulted and nothing else can run.
pub proof fn lemma_restart_marks(k: KernelView, frame: TrapFrame, t: int)
    requires
        k.tcbs.len() == NUM_TASKS,
        k.current < NUM_TASKS,
        0 <= t < NUM_TASKS,
        !k.tcbs[t].fresh,
    ensures
        scheduled(k, frame).tcbs[t].fresh == (k.tcbs[t].state == TaskState::Faulted && (restart_due(
            k.tcbs[t],
            k.tick_count,
        ) || (t == IDLE_TASK_ID && !any_eligible(eligibility(candidates(k, frame)))))),
        scheduled(k, frame).tcbs[t].fresh ==> scheduled(k, frame).tcbs[t].context == start_frame(
            k.tcbs[t].entry_point,
            k.tcbs[t].user_stack_top,
        ) && scheduled(k, frame).tcbs[t].state != TaskState::Faulted,
{
    lemma_scheduled_task(k, frame);
}

/// The restart of one control block, on plain values: for a Faulted task
/// the new state, return address, processor state, stack pointer,
/// priority, used ticks and heartbeat, and `true`; for any other task
/// its state, zeros, and `false`.
pub fn restart_task_pure(
    state: TaskState,
    entry_point: u64,
    user_stack_top: u64,
    base_priority: u8,
    now: u64,
) -> (r: (TaskState, u64, u64, u64, u8, u64, u64, bool))
    ensures
        state == TaskState::Faulted ==> r == (
            TaskState::Ready,
            entry_point,
            SPSR_USER,
            user_stack_top,
            base_priority,
            0u64,
            now,
            true,
        ),
        state != TaskState::Faulted ==> r == (state, 0u64, 0u64, 0u64, 0u8, 0u64, 0u64, false),
{
    if state != TaskState::Faulted {
        return (state, 0, 0, 0, 0, 0, 0, false);
    }
    (TaskState::Ready, entry_point, 0x000, user_stack_top, base_priority, 0, now, true)
}

/// Whether the watchdog faults a task: its interval is not zero and more
/// ticks than the interval have passed since its last heartbeat.
pub fn watchdog_should_fault(interval: u64, elapsed: u64) -> (fault: bool)
    ensures
        fault == (interval != 0 && elapsed > interval),
        interval == 0 ==> !fault,
{
    interval > 0 && elapsed > interval
}

/// Whether an epoch reset touches a task in this state.
pub open spec fn budget_replenished(state: TaskState) -> bool {
    state != TaskState::Inactive && state != TaskState::Exited
}

/// The used ticks after an epoch reset: zero for every task that is
/// neither Inactive nor Exited, unchanged for those.
pub fn epoch_reset_pure(
    states: &[TaskState; NUM_TASKS],
    ticks_used: &[u64; NUM_TASKS],
) -> (result: [u64; NUM_TASKS])
    ensures
        forall|i: int|
            0 <= i < NUM_TASKS ==> #[trigger] result[i] == (if budget_replenished(states[i]) {
                0
            } else {
                ticks_used[i]
            }),
{
    let mut result = *ticks_used;
    let mut i: usize = 0;
    while i < NUM_TASKS
        invariant
            i <= NUM_TASKS,
            forall|j: int|
                0 <= j < i ==> #[trigger] result[j] == (if budget_replenished(states[j]) {
                    0
                } else {
                    ticks_used[j]
                }),
            forall|j: int| i <= j < NUM_TASKS ==> #[trigger] result[j] == ticks_used[j],
        decreases NUM_TASKS - i,
    {
        if states[i] != TaskState::Inactive && states[i] != TaskState::Exited {
            result[i] = 0;
        }
        i += 1;
    }
    result
}

/// A control block after an epoch reset.
pub open spec fn replenished(t: Tcb) -> Tcb {
    if budget_replenished(t.state) {
        Tcb { ticks_used: 0, ..t }
    } else {
        t
    }
}

/// The kernel state at the start of a new epoch: the epoch counter at
/// zero and every task that is neither Inactive nor Exited with its
/// budget back.
pub open spec fn epoch_started(k: KernelView) -> KernelView {
    KernelView {
        epoch_ticks: 0,
        tcbs: Seq::new(NUM_TASKS as nat, |i: int| replenished(k.tcbs[i])),
        ..k
    }
}

/// Start a new epoch: the epoch counter returns to zero and every task
/// that is neither Inactive nor Exited gets its budget back.
pub fn epoch_reset(k: &mut Kernel)
    ensures
        final(k).keeps_identity(old(k)),
        final(k)@ == epoch_started(old(k)@),
        final(k).epoch_ticks == 0,
        final(k).current == old(k).current,
        final(k).tick_count == old(k).tick_count,
        final(k).endpoints == old(k).endpoints,
        final(k).grants == old(k).grants,
        final(k).irq_bindings == old(k).irq_bindings,
        forall|i: int|
            0 <= i < NUM_TASKS ==> #[trigger] final(k).tcbs[i] == replenished(old(k).tcbs[i]),
        old(k).wf() ==> final(k).wf(),
{
    k.epoch_ticks = 0;
    let mut i: usize = 0;
    while i < NUM_TASKS
        invariant
            i <= NUM_TASKS,
            k.epoch_ticks == 0,
            k.current == old(k).current,
            k.tick_count == old(k).tick_count,
            k.endpoints == old(k).endpoints,
            k.grants == old(k).grants,
            k.irq_bindings == old(k).irq_bindings,
            forall|j: int| 0 <= j < i ==> #[trigger] k.tcbs[j] == replenished(old(k).tcbs[j]),
            forall|j: int| i <= j < NUM_TASKS ==> #[trigger] k.tcbs[j] == old(k).tcbs[j],
        decreases NUM_TASKS - i,
    {
        if k.tcbs[i].state != TaskState::Inactive && k.tcbs[i].state != TaskState::Exited {
            k.tcbs[i].ticks_used = 0;
        }
        i += 1;
    }
    proof {
        assert(k@.tcbs =~= epoch_started(old(k)@).tcbs);
        assert(k@.endpoints =~= old(k)@.endpoints);
        if old(k).wf() {
            crate::kernel::state::lemma_tables_kept(old(k), k);
        }
    }
}

/// The slot the scan visits at step `off`, when task `old` was running:
/// the scan starts behind `old` and wraps around.
pub open spec fn scan_slot(old: int, off: int) -> int {
    (old + 1 + off) % (NUM_TASKS as int)
}

/// Some task is eligible.
pub open spec fn any_eligible(e: Seq<bool>) -> bool {
    exists|i: int| 0 <= i < NUM_TASKS && e[i]
}

/// The task visited at step `off` is eligible, no eligible task has a
/// higher priority, and none of the same priority is visited earlier.
pub open spec fn wins(e: Seq<bool>, p: Seq<u8>, old: int, off: int) -> bool {
    &&& 0 <= off < NUM_TASKS
    &&& e[scan_slot(old, off)]
    &&& forall|o: int|
        0 <= o < NUM_TASKS && e[#[trigger] scan_slot(old, o)] ==> p[scan_slot(old, o)]
            < p[scan_slot(old, off)] || (p[scan_slot(old, o)] == p[scan_slot(old, off)] && off
            <= o)
}

/// The task to run next: among the eligible tasks the one of highest
/// priority, the first in scan order among equals; the idle task if no
/// task is eligible.
pub open spec fn selected(e: Seq<bool>, p: Seq<u8>, old: int) -> int {
    if any_eligible(e) {
        scan_slot(old, choose|off: int| wins(e, p, old, off))
    } else {
        IDLE_TASK_ID as int
    }
}

/// At most one step of the scan wins, so the selection is determined.
pub proof fn lemma_winner_unique(e: Seq<bool>, p: Seq<u8>, old: int, a: int, b: int)
    requires
        wins(e, p, old, a),
        wins(e, p, old, b),
    ensures
        a == b,
{
    assert(e[scan_slot(old, a)]);
    assert(e[scan_slot(old, b)]);
}

/// The step of the scan that visits `slot`.
pub open spec fn scan_step(old: int, slot: int) -> int {
    (slot + NUM_TASKS - old - 1) % (NUM_TASKS as int)
}

/// The scan visits every slot exactly once.
pub proof fn lemma_scan_covers(old: int, slot: int)
    requires
        0 <= old < NUM_TASKS,
        0 <= slot < NUM_TASKS,
    ensures
        0 <= scan_step(old, slot) < NUM_TASKS,
        scan_slot(old, scan_step(old, slot)) == slot,
        forall|off: int| 0 <= off < NUM_TASKS && scan_slot(old, off) == slot
            ==> off == scan_step(old, slot),
{
}

/// Pick the task to run next from the eligibility and the priority of
/// every task and the index of the task that was running.
pub fn pick_next_task_pure(
    is_eligible: &[bool; NUM_TASKS],
    priorities: &[u8; NUM_TASKS],
    old: usize,
) -> (next: usize)
    requires
        old < NUM_TASKS,
    ensures
        next < NUM_TASKS,
        next == selected(is_eligible@, priorities@, old as int),
        any_eligible(is_eligible@) ==> is_eligible[next as int],
        !any_eligible(is_eligible@) ==> next == IDLE_TASK_ID,
{
    let mut best_prio: i16 = -1;
    let mut next = IDLE_TASK_ID;
    let mut found = false;
    let ghost mut best_off: int = 0;
    let mut offset: usize = 0;
    while offset < NUM_TASKS
        invariant
            old < NUM_TASKS,
            offset <= NUM_TASKS,
            next < NUM_TASKS,
            !found ==> next == IDLE_TASK_ID && best_prio == -1,
            !found ==> forall|o: int| 0 <= o < offset
                ==> !is_eligible[#[trigger] scan_slot(old as int, o)],
            found ==> 0 <= best_off < offset && next == scan_slot(old as int, best_off)
                && is_eligible[next as int] && best_prio == priorities[next as int],
            found ==> forall|o: int|
                0 <= o < offset && is_eligible[#[trigger] scan_slot(old as int, o)]
                    ==> priorities[scan_slot(old as int, o)] < priorities[next as int] || (
                priorities[scan_slot(old as int, o)] == priorities[next as int] && best_off <= o),
        decreases NUM_TASKS - offset,
    {
        let idx = (old + 1 + offset) % NUM_TASKS;
        if is_eligible[idx] && (priorities[idx] as i16) > best_prio {
            best_prio = priorities[idx] as i16;
            next = idx;
            found = true;
            proof {
                best_off = offset as int;
            }
        }
        offset += 1;
    }
    if !found {
        next = IDLE_TASK_ID;
    }
    proof {
        let e = is_eligible@;
        let p = priorities@;
        if found {
            assert(wins(e, p, old as int, best_off));
            assert(any_eligible(e));
            let c = choose|off: int| wins(e, p, old as int, off);
            lemma_winner_unique(e, p, old as int, c, best_off);
        } else {
            assert forall|i: int| 0 <= i < NUM_TASKS implies !e[i] by {
                lemma_scan_covers(old as int, i);
                assert(!is_eligible[scan_slot(old as int, scan_step(old as int, i))]);
            }
        }
    }
    next
}

/// The control block of the running task once it is taken off the CPU:
/// its frame is saved, and a task that was Running is Ready again.
pub open spec fn preempted(t: Tcb, frame: TrapFrame) -> Tcb {
    Tcb {
        context: frame,
        state: if t.state == TaskState::Running {
            TaskState::Ready
        } else {
            t.state
        },
        ..t
    }
}

/// The task table from which the next task is selected: the running task
/// preempted, and every faulted task whose delay has passed restarted.
pub open spec fn candidates(k: KernelView, frame: TrapFrame) -> Seq<Tcb> {
    Seq::new(
        NUM_TASKS as nat,
        |i: int|
            revived(
                if i == k.current {
                    preempted(k.tcbs[i], frame)
                } else {
                    k.tcbs[i]
                },
                k.tick_count,
            ),
    )
}

/// Which tasks of a table are eligible.
pub open spec fn eligibility(tcbs: Seq<Tcb>) -> Seq<bool> {
    Seq::new(NUM_TASKS as nat, |i: int| eligible(tcbs[i]))
}

/// The effective priorities of a table.
pub open spec fn priorities_of(tcbs: Seq<Tcb>) -> Seq<u8> {
    Seq::new(NUM_TASKS as nat, |i: int| tcbs[i].priority)
}

/// The task that a scheduling decision selects.
pub open spec fn next_task(k: KernelView, frame: TrapFrame) -> int {
    let c = candidates(k, frame);
    selected(eligibility(c), priorities_of(c), k.current as int)
}

/// The idle task when nothing else can run: restarted if it had faulted,
/// and Ready whatever it was.
pub open spec fn idle_forced(t: Tcb, now: u64) -> Tcb {
    Tcb { state: TaskState::Ready, ..restart_if_faulted(t, now) }
}

/// The task table after a scheduling decision.
pub open spec fn scheduled_tcbs(k: KernelView, frame: TrapFrame) -> Seq<Tcb> {
    let c = candidates(k, frame);
    let c = if any_eligible(eligibility(c)) {
        c
    } else {
        c.update(IDLE_TASK_ID as int, idle_forced(c[IDLE_TASK_ID as int], k.tick_count))
    };
    let n = next_task(k, frame);
    c.update(n, Tcb { state: TaskState::Running, ..c[n] })
}

/// The kernel state after a scheduling decision made when the running
/// task trapped with `frame`: the selected task is Running and current.
pub open spec fn scheduled(k: KernelView, frame: TrapFrame) -> KernelView {
    KernelView { tcbs: scheduled_tcbs(k, frame), current: next_task(k, frame) as usize, ..k }
}

/// The frame with which execution resumes after a scheduling decision:
/// the saved context of the selected task.
pub open spec fn resumed_frame(k: KernelView, frame: TrapFrame) -> TrapFrame {
    scheduled_tcbs(k, frame)[next_task(k, frame)].context
}

/// A scheduling decision selects an existing task and makes it Running.
/// If some task can run, the selected one is such a task; if none can,
/// the idle task is selected.  A task that is neither selected nor the
/// idle task is as it was among the candidates.
pub proof fn lemma_scheduled_task(k: KernelView, frame: TrapFrame)
    requires
        k.tcbs.len() == NUM_TASKS,
        k.current < NUM_TASKS,
    ensures
        0 <= next_task(k, frame) < NUM_TASKS,
        scheduled(k, frame).current == next_task(k, frame),
        scheduled(k, frame).tcbs.len() == NUM_TASKS,
        scheduled(k, frame).tcbs[next_task(k, frame)].state == TaskState::Running,
        any_eligible(eligibility(candidates(k, frame))) ==> eligible(
            candidates(k, frame)[next_task(k, frame)],
        ),
        !any_eligible(eligibility(candidates(k, frame))) ==> next_task(k, frame) == IDLE_TASK_ID,
        forall|i: int|
            0 <= i < NUM_TASKS && i != next_task(k, frame) && i != IDLE_TASK_ID ==> scheduled(
                k,
                frame,
            ).tcbs[i] == candidates(k, frame)[i],
        forall|i: int|
            0 <= i < NUM_TASKS && i != next_task(k, frame) && any_eligible(
                eligibility(candidates(k, frame)),
            ) ==> scheduled(k, frame).tcbs[i] == candidates(k, frame)[i],
{
    let c = candidates(k, frame);
    let e = eligibility(c);
    let p = priorities_of(c);
    if any_eligible(e) {
        lemma_has_winner(e, p, k.current as int);
        let off = choose|off: int| wins(e, p, k.current as int, off);
        assert(wins(e, p, k.current as int, off));
    }
}

/// If some task is eligible, some step of the scan wins.
pub proof fn lemma_has_winner(e: Seq<bool>, p: Seq<u8>, old: int)
    requires
        0 <= old < NUM_TASKS,
        any_eligible(e),
    ensures
        exists|off: int| wins(e, p, old, off),
{
    let i = choose|i: int| 0 <= i < NUM_TASKS && e[i];
    lemma_scan_covers(old, i);
    lemma_best_upto(e, p, old, NUM_TASKS as int);
    assert(e[scan_slot(old, scan_step(old, i))]);
    let n = NUM_TASKS as int;
    let off = choose|off: int|
        0 <= off < n && e[scan_slot(old, off)] && forall|o: int|
            0 <= o < n && e[#[trigger] scan_slot(old, o)] ==> p[scan_slot(old, o)] < p[scan_slot(
                old,
                off,
            )] || (p[scan_slot(old, o)] == p[scan_slot(old, off)] && off <= o);
    assert(wins(e, p, old, off));
}

/// Among the first `n` steps of the scan, if one visits an eligible
/// task, one beats all the others of them.
proof fn lemma_best_upto(e: Seq<bool>, p: Seq<u8>, old: int, n: int)
    requires
        0 <= old < NUM_TASKS,
        0 <= n <= NUM_TASKS,
    ensures
        (exists|o: int| 0 <= o < n && e[scan_slot(old, o)]) ==> exists|off: int|
            0 <= off < n && e[scan_slot(old, off)] && forall|o: int|
                0 <= o < n && e[#[trigger] scan_slot(old, o)] ==> p[scan_slot(old, o)]
                    < p[scan_slot(old, off)] || (p[scan_slot(old, o)] == p[scan_slot(old, off)]
                    && off <= o),
    decreases n,
{
    if n > 0 {
        lemma_best_upto(e, p, old, n - 1);
        let last = n - 1;
        if exists|o: int| 0 <= o < n - 1 && e[scan_slot(old, o)] {
            let b = choose|off: int|
                0 <= off < n - 1 && e[scan_slot(old, off)] && forall|o: int|
                    0 <= o < n - 1 && e[#[trigger] scan_slot(old, o)] ==> p[scan_slot(old, o)]
                        < p[scan_slot(old, off)] || (p[scan_slot(old, o)] == p[scan_slot(
                        old,
                        off,
                    )] && off <= o);
            if e[scan_slot(old, last)] && p[scan_slot(old, last)] > p[scan_slot(old, b)] {
                assert(forall|o: int|
                    0 <= o < n && e[#[trigger] scan_slot(old, o)] ==> p[scan_slot(old, o)]
                        < p[scan_slot(old, last)] || (p[scan_slot(old, o)] == p[scan_slot(
                        old,
                        last,
                    )] && last <= o));
            } else {
                assert(forall|o: int|
                    0 <= o < n && e[#[trigger] scan_slot(old, o)] ==> p[scan_slot(old, o)]
                        < p[scan_slot(old, b)] || (p[scan_slot(old, o)] == p[scan_slot(old, b)]
                        && b <= o));
            }
        } else if e[scan_slot(old, last)] {
            assert(forall|o: int|
                0 <= o < n && e[#[trigger] scan_slot(old, o)] ==> p[scan_slot(old, o)]
                    < p[scan_slot(old, last)] || (p[scan_slot(old, o)] == p[scan_slot(old, last)]
                    && last <= o));
        }
    }
}

/// Save the frame of the running task, mark the task preempted, and
/// restart every faulted task whose delay has passed: the task table
/// becomes the table from which the next task is selected.
fn prepare_candidates(k: &mut Kernel, frame: &TrapFrame)
    requires
        old(k).current < NUM_TASKS,
    ensures
        final(k).same_but_tcbs(old(k)),
        final(k).keeps_identity(old(k)),
        final(k).tcbs@ == candidates(old(k)@, *frame),
{
    let old_task = k.current;
    k.tcbs[old_task].context = *frame;
    if k.tcbs[old_task].state == TaskState::Running {
        k.tcbs[old_task].state = TaskState::Ready;
    }
    let ghost k0 = *k;
    assert(k0.tcbs[old_task as int] == preempted(old(k).tcbs[old_task as int], *frame));

    let now = k.tick_count;
    let mut i: usize = 0;
    while i < NUM_TASKS
        invariant
            i <= NUM_TASKS,
            k.same_but_tcbs(&k0),
            k.keeps_identity(&k0),
            now == k0.tick_count,
            forall|j: int| 0 <= j < i ==> #[trigger] k.tcbs[j] == revived(k0.tcbs[j], now),
            forall|j: int| i <= j < NUM_TASKS ==> #[trigger] k.tcbs[j] == k0.tcbs[j],
        decreases NUM_TASKS - i,
    {
        if k.tcbs[i].state == TaskState::Faulted && elapsed_ticks(now, k.tcbs[i].fault_tick)
            >= RESTART_DELAY_TICKS {
            restart_task(k, i);
        }
        i += 1;
    }
    assert(k.tcbs@ =~= candidates(old(k)@, *frame));
}

/// Which tasks of the table are eligible, and their effective
/// priorities.
fn survey(k: &Kernel) -> (r: ([bool; NUM_TASKS], [u8; NUM_TASKS]))
    ensures
        r.0@ == eligibility(k.tcbs@),
        r.1@ == priorities_of(k.tcbs@),
{
    let mut is_eligible = [false; NUM_TASKS];
    let mut priorities = [0u8; NUM_TASKS];
    let mut j: usize = 0;
    while j < NUM_TASKS
        invariant
            j <= NUM_TASKS,
            forall|t: int| 0 <= t < j ==> #[trigger] is_eligible[t] == eligible(k.tcbs[t]),
            forall|t: int| 0 <= t < j ==> #[trigger] priorities[t] == k.tcbs[t].priority,
        decreases NUM_TASKS - j,
    {
        let t = &k.tcbs[j];
        is_eligible[j] = t.state == TaskState::Ready && (t.time_budget == 0 || t.ticks_used
            < t.time_budget);
        priorities[j] = t.priority;
        j += 1;
    }
    assert(is_eligible@ =~= eligibility(k.tcbs@));
    assert(priorities@ =~= priorities_of(k.tcbs@));
    (is_eligible, priorities)
}

/// Make a scheduling decision: save the running task's frame, restart
/// the faulted tasks whose delay has passed, select the next task and
/// load its frame.
///
/// The selected task is the eligible task of highest effective priority,
/// the first behind the running task among equals.  When no task is
/// eligible the idle task runs.  The address space is to be switched to
/// that of the task that is current afterwards, and the user stack of
/// every task that was restarted is to be cleared: [`take_restarted`]
/// names them.
pub fn schedule(k: &mut Kernel, frame: &mut TrapFrame)
    requires
        old(k).current < NUM_TASKS,
    ensures
        final(k)@ == scheduled(old(k)@, *old(frame)),
        *final(frame) == resumed_frame(old(k)@, *old(frame)),
        final(k).current < NUM_TASKS,
        final(k).current == next_task(old(k)@, *old(frame)),
        final(k).tcbs[final(k).current as int].state == TaskState::Running,
        any_eligible(eligibility(candidates(old(k)@, *old(frame)))) ==> eligible(
            candidates(old(k)@, *old(frame))[final(k).current as int],
        ),
        !any_eligible(eligibility(candidates(old(k)@, *old(frame)))) ==> final(k).current
            == IDLE_TASK_ID,
        final(k).tick_count == old(k).tick_count,
        final(k).epoch_ticks == old(k).epoch_ticks,
        final(k).endpoints == old(k).endpoints,
        final(k).grants == old(k).grants,
        final(k).irq_bindings == old(k).irq_bindings,
        final(k).keeps_identity(old(k)),
        old(k).wf() ==> final(k).wf(),
        crate::kernel::waiting::orderly_within_trap(old(k)@)
            ==> crate::kernel::waiting::orderly(final(k)@),
{
    proof {
        if crate::kernel::waiting::orderly_within_trap(old(k)@) {
            crate::kernel::waiting::lemma_schedule_restores_order(old(k)@, *old(frame));
        }
    }
    let old_task = k.current;
    let ghost kv = old(k)@;
    let ghost fr = *old(frame);
    prepare_candidates(k, frame);
    let (is_eligible, priorities) = survey(k);

    let mut next = pick_next_task_pure(&is_eligible, &priorities, old_task);
    if !is_eligible[next] {
        next = IDLE_TASK_ID;
        if k.tcbs[IDLE_TASK_ID].state == TaskState::Faulted {
            restart_task(k, IDLE_TASK_ID);
        }
        k.tcbs[IDLE_TASK_ID].state = TaskState::Ready;
    }
    k.tcbs[next].state = TaskState::Running;
    k.current = next;
    *frame = k.tcbs[next].context;

    proof {
        assert(k.tcbs@ =~= scheduled_tcbs(kv, fr));
        assert(k@.endpoints =~= kv.endpoints);
        assert(k@ == scheduled(kv, fr));
        if old(k).wf() {
            crate::kernel::state::lemma_tables_kept(old(k), k);
        }
    }
}

/// A control block once its task's resources are released: effective
/// priority back at base, watchdog disabled, nobody to wait for.
pub open spec fn released(t: Tcb) -> Tcb {
    Tcb { priority: t.base_priority, heartbeat_interval: 0, awaits: None, ..t }
}

/// The kernel state once the resources of `task` are released: its
/// priority restored, its watchdog disabled, the task gone from every
/// endpoint, grant and IRQ binding, and every task that waited for its
/// reply Ready again and out of the receiver slot it waited in.
pub open spec fn cleaned_up(k: KernelView, task: usize) -> KernelView {
    let k = crate::kernel::ipc::ipc_cleaned(
        k.with_tcb(task as int, released(k.tcbs[task as int])),
        task,
    );
    KernelView {
        grants: crate::kernel::grant::grants_cleaned(k.grants, task),
        irq_bindings: crate::kernel::irq::bindings_cleaned(k.irq_bindings, task),
        ..k
    }
}

/// Release all resources held by a task.  Shared by the fault path and
/// the exit path.
///
/// Afterwards the task has its base priority and no watchdog, it waits
/// in no sender queue and no receiver slot, and no active grant or IRQ
/// binding names it.  Every task that waited for its reply is Ready
/// again and out of the receiver slot it waited in.  What is to be
/// undone in hardware is what [`release_plan`] gives for the state
/// before the call.
pub fn cleanup_task_resources(k: &mut Kernel, task_idx: usize)
    requires
        task_idx < NUM_TASKS,
        forall|e: int|
            0 <= e < crate::kernel::ipc::MAX_ENDPOINTS ==> (#[trigger] old(k).endpoints[e]).wf(),
    ensures
        final(k).keeps_identity(old(k)),
        final(k)@ == cleaned_up(old(k)@, task_idx),
        final(k).current == old(k).current,
        final(k).tick_count == old(k).tick_count,
        final(k).epoch_ticks == old(k).epoch_ticks,
        old(k).wf() ==> final(k).wf(),
        old(k)@.senders_in_range() ==> final(k)@.senders_in_range(),
        crate::kernel::irq::targets_in_range(old(k).irq_bindings@)
            ==> crate::kernel::irq::targets_in_range(final(k).irq_bindings@),
        forall|e: int|
            0 <= e < crate::kernel::ipc::MAX_ENDPOINTS ==> (#[trigger] final(k).endpoints[e]).wf(),
        crate::kernel::ipc::waits_nowhere(final(k)@.endpoints, task_idx),
        forall|c: usize|
            crate::kernel::ipc::is_partner(old(k)@.tcbs, c, task_idx)
                ==> final(k).tcbs[c as int].state == TaskState::Ready
                    && final(k).tcbs[c as int].awaits.is_none()
                && crate::kernel::ipc::receives_nowhere(final(k)@.endpoints, c),
{
    k.tcbs[task_idx].priority = k.tcbs[task_idx].base_priority;
    k.tcbs[task_idx].heartbeat_interval = 0;
    k.tcbs[task_idx].awaits = None;
    proof {
        assert(k@.endpoints =~= old(k)@.endpoints);
        assert(k@.tcbs =~= old(k)@.tcbs.update(
            task_idx as int,
            released(old(k).tcbs[task_idx as int]),
        ));
    }
    let ghost k1 = k@;
    crate::kernel::ipc::cleanup_task(k, task_idx);
    crate::kernel::grant::cleanup_task(&mut k.grants, task_idx);
    crate::kernel::irq::irq_cleanup_task(&mut k.irq_bindings, task_idx);
    proof {
        let c = cleaned_up(old(k)@, task_idx);
        if old(k)@.senders_in_range() {
            lemma_cleanup_keeps_senders(old(k)@, task_idx);
        }
        assert(k@.endpoints =~= c.endpoints);
        assert(k@.grants =~= c.grants);
        assert(k@.irq_bindings =~= c.irq_bindings);
        assert forall|p: usize| crate::kernel::ipc::is_partner(old(k)@.tcbs, p, task_idx)
            implies crate::kernel::ipc::is_partner(k1.tcbs, p, task_idx) by {}
    }
}

/// A control block once its task is marked Faulted at tick `now`.
pub open spec fn faulted(t: Tcb, now: u64) -> Tcb {
    Tcb { state: TaskState::Faulted, fault_tick: now, ..t }
}

/// The kernel state once `task` has faulted: marked Faulted at the
/// current tick, its resources released.
pub open spec fn fault_of(k: KernelView, task: usize) -> KernelView {
    cleaned_up(k.with_tcb(task as int, faulted(k.tcbs[task as int], k.tick_count)), task)
}

/// The kernel state once `task` has exited: marked Exited, its resources
/// released.
pub open spec fn exit_of(k: KernelView, task: usize) -> KernelView {
    cleaned_up(
        k.with_tcb(task as int, Tcb { state: TaskState::Exited, ..k.tcbs[task as int] }),
        task,
    )
}

/// Mark a task Faulted at the current tick and release its resources.
pub fn fault_task(k: &mut Kernel, task_idx: usize)
    requires
        task_idx < NUM_TASKS,
        old(k).wf(),
    ensures
        final(k).keeps_identity(old(k)),
        final(k)@ == fault_of(old(k)@, task_idx),
        final(k).wf(),
        old(k)@.senders_in_range() ==> final(k)@.senders_in_range(),
        crate::kernel::irq::targets_in_range(old(k).irq_bindings@)
            ==> crate::kernel::irq::targets_in_range(final(k).irq_bindings@),
        final(k).tcbs[task_idx as int].state == TaskState::Faulted,
        crate::kernel::ipc::waits_nowhere(final(k)@.endpoints, task_idx),
{
    k.tcbs[task_idx].state = TaskState::Faulted;
    k.tcbs[task_idx].fault_tick = k.tick_count;
    proof {
        assert(k@.endpoints =~= old(k)@.endpoints);
        assert(k@.tcbs =~= old(k)@.tcbs.update(
            task_idx as int,
            faulted(old(k).tcbs[task_idx as int], old(k).tick_count),
        ));
        assert(k@ == old(k)@.with_tcb(
            task_idx as int,
            faulted(old(k).tcbs[task_idx as int], old(k).tick_count),
        ));
    }
    cleanup_task_resources(k, task_idx);
}

/// Mark the currently running task as Faulted, release its resources,
/// and schedule away.
pub fn fault_current_task(k: &mut Kernel, frame: &mut TrapFrame)
    requires
        old(k).wf(),
    ensures
        final(k).keeps_identity(old(k)),
        final(k)@ == scheduled(fault_of(old(k)@, old(k).current), *old(frame)),
        *final(frame) == resumed_frame(fault_of(old(k)@, old(k).current), *old(frame)),
        final(k).wf(),
        crate::kernel::ipc::waits_nowhere(final(k)@.endpoints, old(k).current),
        old(k)@.senders_in_range() ==> final(k)@.senders_in_range(),
        crate::kernel::irq::targets_in_range(old(k).irq_bindings@)
            ==> crate::kernel::irq::targets_in_range(final(k).irq_bindings@),
        crate::kernel::waiting::orderly(old(k)@) ==> crate::kernel::waiting::orderly(final(k)@),
{
    proof {
        if crate::kernel::waiting::orderly(old(k)@) {
            crate::kernel::waiting::lemma_task_fault_keeps_order(old(k)@, *old(frame));
        }
    }
    let current = k.current;
    fault_task(k, current);
    schedule(k, frame);
}

/// Terminate the current task for good: mark it Exited, release its
/// resources, and schedule away.  An exited task is never restarted.
pub fn sys_exit(k: &mut Kernel, frame: &mut TrapFrame, exit_code: u64)
    requires
        old(k).wf(),
    ensures
        final(k).keeps_identity(old(k)),
        final(k)@ == scheduled(exit_of(old(k)@, old(k).current), *old(frame)),
        *final(frame) == resumed_frame(exit_of(old(k)@, old(k).current), *old(frame)),
        final(k).wf(),
        crate::kernel::ipc::waits_nowhere(final(k)@.endpoints, old(k).current),
        old(k)@.senders_in_range() ==> final(k)@.senders_in_range(),
        crate::kernel::irq::targets_in_range(old(k).irq_bindings@)
            ==> crate::kernel::irq::targets_in_range(final(k).irq_bindings@),
{
    let current = k.current;
    k.tcbs[current].state = TaskState::Exited;
    proof {
        assert(k@.endpoints =~= old(k)@.endpoints);
        assert(k@.tcbs =~= old(k)@.tcbs.update(
            current as int,
            Tcb { state: TaskState::Exited, ..old(k).tcbs[current as int] },
        ));
        assert(k@ == old(k)@.with_tcb(
            current as int,
            Tcb { state: TaskState::Exited, ..old(k).tcbs[current as int] },
        ));
    }
    cleanup_task_resources(k, current);
    schedule(k, frame);
}

/// The watchdog faults the task at tick `now`: its heartbeat interval is
/// not zero, it is not Faulted, Inactive or Exited, and more ticks than
/// the interval have passed since its last heartbeat.
pub open spec fn overdue(t: Tcb, now: u64) -> bool {
    &&& t.heartbeat_interval != 0
    &&& t.state != TaskState::Faulted
    &&& t.state != TaskState::Inactive
    &&& t.state != TaskState::Exited
    &&& ticks_since(now, t.last_heartbeat) > t.heartbeat_interval
}

/// The kernel state after the watchdog has looked at the first `n` tasks
/// in turn: each overdue task has faulted, as by any other fault.
pub open spec fn watchdog_scanned(k: KernelView, n: nat) -> KernelView
    decreases n,
{
    if n == 0 {
        k
    } else {
        let before = watchdog_scanned(k, (n - 1) as nat);
        if overdue(k.tcbs[n - 1], k.tick_count) {
            fault_of(before, (n - 1) as usize)
        } else {
            before
        }
    }
}

/// Task `j` waits, Blocked, for the reply of one of the first `n` tasks
/// that is overdue at tick `now`.
pub open spec fn awaits_victim(tcbs: Seq<Tcb>, j: int, n: nat, now: u64) -> bool {
    &&& tcbs[j].state == TaskState::Blocked
    &&& tcbs[j].awaits matches Some(v) && v < n && v != j && overdue(tcbs[v as int], now)
}

/// What the watchdog makes of task `j` when it has looked at the first
/// `n` tasks: an overdue task among them has faulted and its resources
/// are released; a task that waited for the reply of one of those is
/// Ready again; any other task is as it was.
pub open spec fn scan_result(k: KernelView, j: int, n: nat) -> Tcb {
    if j < n && overdue(k.tcbs[j], k.tick_count) {
        released(faulted(k.tcbs[j], k.tick_count))
    } else if awaits_victim(k.tcbs, j, n, k.tick_count) {
        crate::kernel::ipc::partner_released(k.tcbs[j])
    } else {
        k.tcbs[j]
    }
}

/// The scan makes of every task what [`scan_result`] says, and leaves
/// the tick counters and the current task alone.
pub proof fn lemma_watchdog_scanned_frame(k: KernelView, n: nat)
    requires
        k.wf(),
        n <= NUM_TASKS,
    ensures
        watchdog_scanned(k, n).tcbs.len() == NUM_TASKS,
        watchdog_scanned(k, n).tick_count == k.tick_count,
        watchdog_scanned(k, n).epoch_ticks == k.epoch_ticks,
        watchdog_scanned(k, n).current == k.current,
        forall|j: int|
            0 <= j < NUM_TASKS ==> #[trigger] watchdog_scanned(k, n).tcbs[j] == scan_result(
                k,
                j,
                n,
            ),
    decreases n,
{
    if n > 0 {
        lemma_watchdog_scanned_frame(k, (n - 1) as nat);
        let before = watchdog_scanned(k, (n - 1) as nat);
        let t = (n - 1) as usize;
        let now = k.tick_count;
        assert forall|j: int| 0 <= j < NUM_TASKS implies before.tcbs[j] == scan_result(
            k,
            j,
            (n - 1) as nat,
        ) by {}
        if overdue(k.tcbs[n - 1], now) {
            let after = fault_of(before, t);
            assert forall|j: int| 0 <= j < NUM_TASKS implies #[trigger] after.tcbs[j] == (if j
                == t {
                released(faulted(before.tcbs[j], now))
            } else if crate::kernel::ipc::awaits_reply_of(before.tcbs[j], t) {
                crate::kernel::ipc::partner_released(before.tcbs[j])
            } else {
                before.tcbs[j]
            }) by {}
            assert forall|j: int| 0 <= j < NUM_TASKS implies #[trigger] after.tcbs[j]
                == scan_result(k, j, n) by {
                assert(before.tcbs[j] == scan_result(k, j, (n - 1) as nat));
            }
        } else {
            assert forall|j: int| 0 <= j < NUM_TASKS implies #[trigger] before.tcbs[j]
                == scan_result(k, j, n) by {
                assert(before.tcbs[j] == scan_result(k, j, (n - 1) as nat));
            }
        }
    }
}

/// A task that faults or exits takes nobody down with it.  A task `c`
/// that waited, Blocked, for the reply of `task` is Ready once `task`
/// has faulted or exited, waits for nobody and in no receiver slot, and
/// is otherwise as it was; `task` itself waits nowhere; and a task that
/// is neither is left alone.
pub proof fn lemma_leaving_unblocks_partners(k: KernelView, task: usize, c: usize)
    requires
        k.wf(),
        task < NUM_TASKS,
        c < NUM_TASKS,
        c != task,
    ensures
        crate::kernel::ipc::waits_nowhere(fault_of(k, task).endpoints, task),
        crate::kernel::ipc::waits_nowhere(exit_of(k, task).endpoints, task),
        crate::kernel::ipc::awaits_reply_of(k.tcbs[c as int], task) ==> {
            &&& fault_of(k, task).tcbs[c as int] == crate::kernel::ipc::partner_released(
                k.tcbs[c as int],
            )
            &&& exit_of(k, task).tcbs[c as int] == fault_of(k, task).tcbs[c as int]
            &&& fault_of(k, task).tcbs[c as int].state == TaskState::Ready
            &&& fault_of(k, task).tcbs[c as int].awaits.is_none()
            &&& crate::kernel::ipc::receives_nowhere(fault_of(k, task).endpoints, c)
            &&& crate::kernel::ipc::receives_nowhere(exit_of(k, task).endpoints, c)
        },
        !crate::kernel::ipc::awaits_reply_of(k.tcbs[c as int], task) ==> fault_of(
            k,
            task,
        ).tcbs[c as int] == k.tcbs[c as int] && exit_of(k, task).tcbs[c as int]
            == k.tcbs[c as int],
{
    let f = k.with_tcb(task as int, released(faulted(k.tcbs[task as int], k.tick_count)));
    let x = k.with_tcb(
        task as int,
        released(Tcb { state: TaskState::Exited, ..k.tcbs[task as int] }),
    );
    crate::kernel::ipc::lemma_cleaned_waits_nowhere(k.endpoints, task, f.tcbs);
    crate::kernel::ipc::lemma_cleaned_waits_nowhere(k.endpoints, task, x.tcbs);
    assert(fault_of(k, task).endpoints == crate::kernel::ipc::endpoints_cleaned(
        k.endpoints,
        task,
        f.tcbs,
    ));
    assert(exit_of(k, task).endpoints == crate::kernel::ipc::endpoints_cleaned(
        k.endpoints,
        task,
        x.tcbs,
    ));
    if crate::kernel::ipc::awaits_reply_of(k.tcbs[c as int], task) {
        assert(crate::kernel::ipc::is_partner(f.tcbs, c, task));
        assert(crate::kernel::ipc::is_partner(x.tcbs, c, task));
    }
}

/// Releasing a task's resources keeps every queued sender a task.
pub proof fn lemma_cleanup_keeps_senders(k: KernelView, task: usize)
    requires
        k.senders_in_range(),
    ensures
        cleaned_up(k, task).senders_in_range(),
{
    let c = cleaned_up(k, task);
    assert forall|e: int, j: int|
        0 <= e < c.endpoints.len() && 0 <= j < c.endpoints[e].senders.len()
            implies #[trigger] c.endpoints[e].senders[j]
        < NUM_TASKS by {
        let s = k.endpoints[e].senders;
        let f = crate::kernel::ipc::without(s, task);
        crate::kernel::ipc::lemma_without_contains(s, task);
        assert(f.contains(f[j]));
        assert(s.contains(f[j]));
        let i = choose|i: int| 0 <= i < s.len() && s[i] == f[j];
        assert(k.endpoints[e].senders[i] < NUM_TASKS);
    }
}

/// The watchdog scan keeps every queued sender a task.
pub proof fn lemma_watchdog_keeps_senders(k: KernelView, n: nat)
    requires
        n <= NUM_TASKS,
    ensures
        k.senders_in_range() ==> watchdog_scanned(k, n).senders_in_range(),
    decreases n,
{
    if n > 0 && k.senders_in_range() {
        lemma_watchdog_keeps_senders(k, (n - 1) as nat);
        let before = watchdog_scanned(k, (n - 1) as nat);
        let t = (n - 1) as usize;
        lemma_cleanup_keeps_senders(
            before.with_tcb(t as int, faulted(before.tcbs[t as int], before.tick_count)),
            t,
        );
    }
}

/// Scan all tasks for watchdog heartbeat violations.  A task that has a
/// heartbeat interval and has not sent a heartbeat within it is marked
/// Faulted and its resources are released.
pub fn watchdog_scan(k: &mut Kernel)
    requires
        old(k).wf(),
    ensures
        final(k).keeps_identity(old(k)),
        final(k).wf(),
        final(k)@ == watchdog_scanned(old(k)@, NUM_TASKS as nat),
        old(k)@.senders_in_range() ==> final(k)@.senders_in_range(),
        crate::kernel::irq::targets_in_range(old(k).irq_bindings@)
            ==> crate::kernel::irq::targets_in_range(final(k).irq_bindings@),
        forall|i: int|
            0 <= i < NUM_TASKS ==> #[trigger] final(k).tcbs[i] == scan_result(
                old(k)@,
                i,
                NUM_TASKS as nat,
            ),
{
    let now = k.tick_count;
    let mut i: usize = 0;
    while i < NUM_TASKS
        invariant
            i <= NUM_TASKS,
            k.wf(),
            old(k).wf(),
            now == old(k).tick_count,
            k@ == watchdog_scanned(old(k)@, i as nat),
            old(k)@.senders_in_range() ==> k@.senders_in_range(),
            crate::kernel::irq::targets_in_range(old(k).irq_bindings@)
                ==> crate::kernel::irq::targets_in_range(k.irq_bindings@),
        decreases NUM_TASKS - i,
    {
        proof {
            lemma_watchdog_scanned_frame(old(k)@, i as nat);
        }
        let hb = k.tcbs[i].heartbeat_interval;
        let st = k.tcbs[i].state;
        let idle = st == TaskState::Faulted || st == TaskState::Inactive || st
            == TaskState::Exited;
        if !idle && watchdog_should_fault(hb, elapsed_ticks(now, k.tcbs[i].last_heartbeat)) {
            fault_task(k, i);
        }
        i += 1;
    }
    proof {
        lemma_watchdog_scanned_frame(old(k)@, NUM_TASKS as nat);
    }
}

/// Set a task's effective priority (used for priority inheritance).
/// Does nothing if `task_idx` is out of range.
pub fn set_task_priority(k: &mut Kernel, task_idx: usize, priority: u8)
    ensures
        final(k).same_but_tcbs(old(k)),
        task_idx < NUM_TASKS ==> final(k).tcbs@ == old(k).tcbs@.update(
            task_idx as int,
            Tcb { priority, ..old(k).tcbs[task_idx as int] },
        ),
        task_idx >= NUM_TASKS ==> *final(k) == *old(k),
{
    if task_idx < NUM_TASKS {
        k.tcbs[task_idx].priority = priority;
    }
}

/// Get a task's current effective priority, 0 if `task_idx` is out of
/// range.
pub fn get_task_priority(k: &Kernel, task_idx: usize) -> (priority: u8)
    ensures
        priority == (if task_idx < NUM_TASKS {
            k.tcbs[task_idx as int].priority
        } else {
            0
        }),
{
    if task_idx < NUM_TASKS {
        k.tcbs[task_idx].priority
    } else {
        0
    }
}

/// Get a task's base priority, 0 if `task_idx` is out of range.
pub fn get_task_base_priority(k: &Kernel, task_idx: usize) -> (priority: u8)
    ensures
        priority == (if task_idx < NUM_TASKS {
            k.tcbs[task_idx as int].base_priority
        } else {
            0
        }),
{
    if task_idx < NUM_TASKS {
        k.tcbs[task_idx].base_priority
    } else {
        0
    }
}

/// Restore a task's priority to its base priority (undo inheritance).
/// Does nothing if `task_idx` is out of range.
pub fn restore_base_priority(k: &mut Kernel, task_idx: usize)
    ensures
        final(k).same_but_tcbs(old(k)),
        task_idx < NUM_TASKS ==> final(k).tcbs@ == old(k).tcbs@.update(
            task_idx as int,
            Tcb {
                priority: old(k).tcbs[task_idx as int].base_priority,
                ..old(k).tcbs[task_idx as int]
            },
        ),
        task_idx >= NUM_TASKS ==> *final(k) == *old(k),
{
    if task_idx < NUM_TASKS {
        k.tcbs[task_idx].priority = k.tcbs[task_idx].base_priority;
    }
}

/// Record a heartbeat of a task at the current tick and set its
/// heartbeat interval (zero disables its watchdog).  Does nothing if
/// `task_idx` is out of range.
pub fn record_heartbeat(k: &mut Kernel, task_idx: usize, interval: u64)
    ensures
        final(k).same_but_tcbs(old(k)),
        task_idx < NUM_TASKS ==> final(k).tcbs@ == old(k).tcbs@.update(
            task_idx as int,
            Tcb {
                heartbeat_interval: interval,
                last_heartbeat: old(k).tick_count,
                ..old(k).tcbs[task_idx as int]
            },
        ),
        task_idx >= NUM_TASKS ==> *final(k) == *old(k),
{
    if task_idx < NUM_TASKS {
        k.tcbs[task_idx].heartbeat_interval = interval;
        k.tcbs[task_idx].last_heartbeat = k.tick_count;
    }
}

/// A control block once notification bits are delivered to its task.
/// The bits join the pending ones; a task that waits for a notification
/// gets all pending bits in `x0`, has none pending any more and is Ready.
pub open spec fn notified(t: Tcb, bits: u64) -> Tcb {
    let pending = t.notify_pending | bits;
    if t.notify_waiting {
        Tcb {
            notify_pending: 0,
            notify_waiting: false,
            state: TaskState::Ready,
            context: TrapFrame {
                x: vstd::array::spec_array_update(t.context.x, 0, pending),
                ..t.context
            },
            ..t
        }
    } else {
        Tcb { notify_pending: pending, ..t }
    }
}

/// Deliver notification bits to a task.  If the task is blocked waiting
/// for a notification it is unblocked with all its pending bits in `x0`.
pub fn deliver_notification(k: &mut Kernel, task_idx: usize, bits: u64)
    requires
        task_idx < NUM_TASKS,
    ensures
        final(k).keeps_identity(old(k)),
        final(k).same_but_tcbs(old(k)),
        final(k).tcbs@ == old(k).tcbs@.update(
            task_idx as int,
            notified(old(k).tcbs[task_idx as int], bits),
        ),
{
    k.tcbs[task_idx].notify_pending |= bits;
    if k.tcbs[task_idx].notify_waiting {
        k.tcbs[task_idx].notify_waiting = false;
        let pending = k.tcbs[task_idx].notify_pending;
        k.tcbs[task_idx].notify_pending = 0;
        k.tcbs[task_idx].context.x[0] = pending;
        k.tcbs[task_idx].state = TaskState::Ready;
    }
}

/// Whether a task is blocked waiting for a notification; false if
/// `task_idx` is out of range.
pub fn is_waiting_for_notification(k: &Kernel, task_idx: usize) -> (waiting: bool)
    ensures
        waiting == (task_idx < NUM_TASKS && k.tcbs[task_idx as int].notify_waiting),
{
    task_idx < NUM_TASKS && k.tcbs[task_idx].notify_waiting
}

/// Size of each kernel stack and each user stack.
pub const STACK_SIZE: u64 = 4096;

/// The lowest address of the stack whose top is `top`, or `None` if no
/// whole stack lies below `top`.
pub fn stack_base(top: u64) -> (base: Option<u64>)
    ensures
        base == (if top >= STACK_SIZE {
            Some((top - STACK_SIZE) as u64)
        } else {
            None
        }),
{
    if top >= STACK_SIZE {
        Some(top - STACK_SIZE)
    } else {
        None
    }
}

/// Top of stack `i` of a row of stacks that starts at `base`.
pub open spec fn stack_top_of(base: u64, i: int) -> u64 {
    (base + (i + 1) * STACK_SIZE) as u64
}

/// The control block of task `i` once the scheduler is initialized: it
/// has its id and its stacks; with an entry point it is Ready to start
/// there, without one it stays as it was.
pub open spec fn initialized(
    t: Tcb,
    i: int,
    entry: u64,
    kstacks_base: u64,
    ustacks_base: u64,
) -> Tcb {
    let t = Tcb {
        id: i as u16,
        stack_top: stack_top_of(kstacks_base, i),
        user_stack_top: stack_top_of(ustacks_base, i),
        ..t
    };
    if entry != 0 {
        Tcb {
            state: TaskState::Ready,
            entry_point: entry,
            context: TrapFrame {
                elr_el1: entry,
                spsr_el1: SPSR_USER,
                sp_el0: stack_top_of(ustacks_base, i),
                ..t.context
            },
            ..t
        }
    } else {
        t
    }
}

/// Initialize the scheduler: give every task its id and its stacks, and
/// make the tasks that have an entry point (not zero) Ready to start
/// there.  `kstacks_base` and `ustacks_base` are where the rows of
/// kernel and user stacks start.
pub fn init(k: &mut Kernel, entries: &[u64; NUM_TASKS], kstacks_base: u64, ustacks_base: u64)
    requires
        kstacks_base + NUM_TASKS * STACK_SIZE <= u64::MAX,
        ustacks_base + NUM_TASKS * STACK_SIZE <= u64::MAX,
    ensures
        final(k).same_but_tcbs(old(k)),
        forall|i: int|
            0 <= i < NUM_TASKS ==> #[trigger] final(k).tcbs[i] == initialized(
                old(k).tcbs[i],
                i,
                entries[i],
                kstacks_base,
                ustacks_base,
            ),
{
    let mut i: usize = 0;
    while i < NUM_TASKS
        invariant
            i <= NUM_TASKS,
            kstacks_base + NUM_TASKS * STACK_SIZE <= u64::MAX,
            ustacks_base + NUM_TASKS * STACK_SIZE <= u64::MAX,
            k.same_but_tcbs(old(k)),
            forall|j: int|
                0 <= j < i ==> #[trigger] k.tcbs[j] == initialized(
                    old(k).tcbs[j],
                    j,
                    entries[j],
                    kstacks_base,
                    ustacks_base,
                ),
            forall|j: int| i <= j < NUM_TASKS ==> #[trigger] k.tcbs[j] == old(k).tcbs[j],
        decreases NUM_TASKS - i,
    {
        k.tcbs[i].id = i as u16;
        k.tcbs[i].stack_top = kstacks_base + (i as u64 + 1) * 4096;
        k.tcbs[i].user_stack_top = ustacks_base + (i as u64 + 1) * 4096;
        if entries[i] != 0 {
            k.tcbs[i].state = TaskState::Ready;
            k.tcbs[i].entry_point = entries[i];
            k.tcbs[i].context.elr_el1 = entries[i];
            k.tcbs[i].context.spsr_el1 = 0x000;
            k.tcbs[i].context.sp_el0 = ustacks_base + (i as u64 + 1) * 4096;
        }
        i += 1;
    }
}

/// A control block with its boot configuration applied: capabilities,
/// priority (effective and base), budget, heartbeat interval and address
/// space.
pub open spec fn configured(t: Tcb, meta: TaskMetadata, ttbr0: u64) -> Tcb {
    Tcb {
        caps: meta.caps,
        priority: meta.priority,
        base_priority: meta.priority,
        time_budget: meta.time_budget,
        heartbeat_interval: meta.heartbeat_interval,
        ttbr0,
        ..t
    }
}

/// Apply the boot configuration to every task: task `i` gets `meta[i]`
/// and the address-space register value `ttbr0[i]`.
pub fn apply_metadata(k: &mut Kernel, meta: &[TaskMetadata; NUM_TASKS], ttbr0: &[u64; NUM_TASKS])
    ensures
        final(k).same_but_tcbs(old(k)),
        forall|i: int|
            0 <= i < NUM_TASKS ==> #[trigger] final(k).tcbs[i] == configured(
                old(k).tcbs[i],
                meta[i],
                ttbr0[i],
            ),
{
    let mut i: usize = 0;
    while i < NUM_TASKS
        invariant
            i <= NUM_TASKS,
            k.same_but_tcbs(old(k)),
            forall|j: int|
                0 <= j < i ==> #[trigger] k.tcbs[j] == configured(
                    old(k).tcbs[j],
                    meta[j],
                    ttbr0[j],
                ),
            forall|j: int| i <= j < NUM_TASKS ==> #[trigger] k.tcbs[j] == old(k).tcbs[j],
        decreases NUM_TASKS - i,
    {
        k.tcbs[i].caps = meta[i].caps;
        k.tcbs[i].priority = meta[i].priority;
        k.tcbs[i].base_priority = meta[i].priority;
        k.tcbs[i].time_budget = meta[i].time_budget;
        k.tcbs[i].heartbeat_interval = meta[i].heartbeat_interval;
        k.tcbs[i].ttbr0 = ttbr0[i];
        i += 1;
    }
}

/// The control block of task `i` when the kernel has booted.
pub open spec fn booted(
    i: int,
    entry: u64,
    kstacks_base: u64,
    ustacks_base: u64,
    meta: TaskMetadata,
    ttbr0: u64,
) -> Tcb {
    let t = configured(
        initialized(Tcb { id: i as u16, ..empty_tcb_spec() }, i, entry, kstacks_base, ustacks_base),
        meta,
        ttbr0,
    );
    if i == 0 {
        Tcb { state: TaskState::Running, ..t }
    } else {
        t
    }
}

/// Boot the kernel: build the task table from the entry points, the
/// stack rows and the boot configuration, and start task 0.  Returns the
/// kernel state and the frame to enter user mode with.
///
/// If the idle task is given no capability that would let it block, the
/// state is orderly: nobody waits yet, and from here on every trap keeps
/// the order among the waiting tasks.
pub fn boot(
    entries: &[u64; NUM_TASKS],
    kstacks_base: u64,
    ustacks_base: u64,
    meta: &[TaskMetadata; NUM_TASKS],
    ttbr0: &[u64; NUM_TASKS],
) -> (r: (Kernel, TrapFrame))
    requires
        kstacks_base + NUM_TASKS * STACK_SIZE <= u64::MAX,
        ustacks_base + NUM_TASKS * STACK_SIZE <= u64::MAX,
    ensures
        r.0.wf(),
        r.0@.senders_in_range(),
        r.0.current == 0,
        r.0.tick_count == 0,
        r.0.epoch_ticks == 0,
        forall|i: int|
            0 <= i < NUM_TASKS ==> #[trigger] r.0.tcbs[i] == booted(
                i,
                entries[i],
                kstacks_base,
                ustacks_base,
                meta[i],
                ttbr0[i],
            ),
        r.1 == r.0.tcbs[0].context,
        forall|e: int|
            0 <= e < crate::kernel::ipc::MAX_ENDPOINTS
                ==> (#[trigger] r.0.endpoints[e])@.senders.len()
                == 0 && r.0.endpoints[e].receiver.is_none(),
        forall|g: int|
            0 <= g < crate::kernel::grant::MAX_GRANTS ==> !(#[trigger] r.0.grants[g]).active,
        forall|b: int|
            0 <= b < crate::kernel::irq::MAX_IRQ_BINDINGS
                ==> !(#[trigger] r.0.irq_bindings[b]).active,
        meta[IDLE_TASK_ID as int].caps & crate::kernel::waiting::BLOCKING_CAPS == 0
            ==> crate::kernel::waiting::orderly(r.0@),
{
    let mut k = Kernel::new();
    init(&mut k, entries, kstacks_base, ustacks_base);
    apply_metadata(&mut k, meta, ttbr0);
    let frame = bootstrap(&mut k);
    proof {
        assert forall|e: int| 0 <= e < crate::kernel::ipc::MAX_ENDPOINTS
            implies (#[trigger] k@.endpoints[e])
            == k.endpoints[e]@ by {}
        assert(k.wf());
        if meta[IDLE_TASK_ID as int].caps & crate::kernel::waiting::BLOCKING_CAPS == 0 {
            crate::kernel::waiting::lemma_order_at_boot(k@);
        }
    }
    (k, frame)
}

/// Start the first task: task 0 becomes the running task.  Returns the
/// frame to enter user mode with; the address space to enter is that of
/// task 0.
pub fn bootstrap(k: &mut Kernel) -> (frame: TrapFrame)
    ensures
        final(k).current == 0,
        final(k).tick_count == old(k).tick_count,
        final(k).epoch_ticks == old(k).epoch_ticks,
        final(k).endpoints == old(k).endpoints,
        final(k).grants == old(k).grants,
        final(k).irq_bindings == old(k).irq_bindings,
        final(k).tcbs@ == old(k).tcbs@.update(
            0,
            Tcb { state: TaskState::Running, ..old(k).tcbs[0] },
        ),
        frame == old(k).tcbs[0].context,
{
    k.tcbs[0].state = TaskState::Running;
    k.current = 0;
    k.tcbs[0].context
}

} // verus!
