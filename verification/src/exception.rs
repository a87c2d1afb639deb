//! Trap frames and the checks made on arguments that cross the privilege
//! boundary.

use vstd::prelude::*;
use crate::kernel::cap::{cap_check, required_capability, syscall_allowed};
use crate::kernel::grant::{created, grant_create, grant_revoke, revoked_in};
use crate::kernel::ipc::{
    call_made,
    frame_after_call,
    frame_after_recv,
    frame_after_send,
    recvd,
    sent,
    sys_call,
    sys_recv,
    sys_send,
};
use crate::kernel::irq::{acked, ack_unmasks, bound, irq_ack, irq_bind, targets_in_range};
use crate::kernel::sched::{
    exit_of,
    fault_current_task,
    fault_of,
    notified,
    record_heartbeat,
    resumed_frame,
    schedule,
    scheduled,
    sys_exit,
    TaskState,
    Tcb,
    NUM_TASKS,
};
use crate::kernel::state::{Kernel, KernelView};

verus! {

/// Number of general-purpose registers saved in a trap frame (x0..x30).
pub const NUM_GP_REGS: usize = 31;

/// Saved CPU context on exception entry: 36 machine words.
///
/// The order of the fields is the order in which the trap entry code
/// stores them.
#[derive(Clone, Copy, Debug)]
#[verifier::ext_equal]
pub struct TrapFrame {
    /// x0..x30 general-purpose registers
    pub x: [u64; 31],
    /// Saved user stack pointer
    pub sp_el0: u64,
    /// Saved return address
    pub elr_el1: u64,
    /// Saved processor state
    pub spsr_el1: u64,
    /// Padding that keeps the frame a multiple of 16 bytes
    pub _pad: [u64; 2],
}

/// Size of a trap frame in bytes.
pub const TRAPFRAME_SIZE: usize = 288;

/// Lowest address a task may hand to the kernel as a buffer.
pub const USER_RAM_START: usize = 0x4000_0000;

/// First address past the memory a task may hand to the kernel.
pub const USER_RAM_END: usize = 0x4800_0000;

/// Longest buffer one write call may pass.
pub const MAX_WRITE_LEN: usize = 256;

impl TrapFrame {
    /// A frame with every word zero.
    pub fn zeroed() -> (f: TrapFrame)
        ensures
            f == zero_frame(),
    {
        let f = TrapFrame { x: [0; 31], sp_el0: 0, elr_el1: 0, spsr_el1: 0, _pad: [0; 2] };
        assert(f.x =~= zero_frame().x);
        assert(f._pad =~= zero_frame()._pad);
        f
    }
}

/// Number of machine words of a trap frame.
pub const TRAPFRAME_WORDS: usize = 36;

/// Word of a stored trap frame that holds the user stack pointer.
pub const WORD_SP_EL0: usize = 31;

/// Word of a stored trap frame that holds the return address.
pub const WORD_ELR_EL1: usize = 32;

/// Word of a stored trap frame that holds the processor state.
pub const WORD_SPSR_EL1: usize = 33;

/// First of the two padding words of a stored trap frame.
pub const WORD_PAD: usize = 34;

/// The words of a frame as the trap entry code stores them: the
/// registers x0..x30, the user stack pointer, the return address, the
/// processor state, and two words of padding.
pub open spec fn frame_words(f: TrapFrame) -> Seq<u64> {
    Seq::new(
        TRAPFRAME_WORDS as nat,
        |i: int|
            if i < WORD_SP_EL0 {
                f.x[i]
            } else if i == WORD_SP_EL0 {
                f.sp_el0
            } else if i == WORD_ELR_EL1 {
                f.elr_el1
            } else if i == WORD_SPSR_EL1 {
                f.spsr_el1
            } else {
                f._pad[i - WORD_PAD]
            },
    )
}

impl TrapFrame {
    /// The frame as the trap entry code stores it.
    pub fn to_words(&self) -> (words: [u64; 36])
        ensures
            words@ == frame_words(*self),
    {
        let mut words = [0u64;36];
        let mut i: usize = 0;
        while i < 31
            invariant
                i <= 31,
                forall|j: int| 0 <= j < i ==> words[j] == self.x[j],
            decreases 31 - i,
        {
            words[i] = self.x[i];
            i += 1;
        }
        words[31] = self.sp_el0;
        words[32] = self.elr_el1;
        words[33] = self.spsr_el1;
        words[34] = self._pad[0];
        words[35] = self._pad[1];
        assert(words@ =~= frame_words(*self));
        words
    }

    /// The frame that the trap entry code stored as `words`.
    pub fn from_words(words: &[u64; 36]) -> (f: TrapFrame)
        ensures
            frame_words(f) == words@,
    {
        let mut x = [0u64;31];
        let mut i: usize = 0;
        while i < 31
            invariant
                i <= 31,
                forall|j: int| 0 <= j < i ==> x[j] == words[j],
            decreases 31 - i,
        {
            x[i] = words[i];
            i += 1;
        }
        let f = TrapFrame {
            x,
            sp_el0: words[31],
            elr_el1: words[32],
            spsr_el1: words[33],
            _pad: [words[34], words[35]],
        };
        assert(frame_words(f) =~= words@);
        f
    }
}

/// Two frames that are stored as the same words are the same frame.
pub proof fn lemma_frame_words_injective(a: TrapFrame, b: TrapFrame)
    requires
        frame_words(a) == frame_words(b),
    ensures
        a == b,
{
    assert forall|i: int| 0 <= i < 31 implies a.x[i] == b.x[i] by {
        assert(frame_words(a)[i] == a.x[i]);
        assert(frame_words(b)[i] == b.x[i]);
    }
    assert(a.x =~= b.x);
    assert(frame_words(a)[31] == a.sp_el0 && frame_words(b)[31] == b.sp_el0);
    assert(frame_words(a)[32] == a.elr_el1 && frame_words(b)[32] == b.elr_el1);
    assert(frame_words(a)[33] == a.spsr_el1 && frame_words(b)[33] == b.spsr_el1);
    assert(frame_words(a)[34] == a._pad[0] && frame_words(b)[34] == b._pad[0]);
    assert(frame_words(a)[35] == a._pad[1] && frame_words(b)[35] == b._pad[1]);
    assert(a._pad =~= b._pad);
}

/// The frame whose every word is zero.
pub open spec fn zero_frame() -> TrapFrame {
    TrapFrame {
        x: vstd::array::spec_array_fill_for_copy_type::<u64, 31>(0u64),
        sp_el0: 0,
        elr_el1: 0,
        spsr_el1: 0,
        _pad: vstd::array::spec_array_fill_for_copy_type::<u64, 2>(0u64),
    }
}

/// Every register of the zero frame reads zero.
pub proof fn lemma_zero_frame()
    ensures
        forall|i: int| 0 <= i < 31 ==> zero_frame().x[i] == 0,
        forall|i: int| 0 <= i < 2 ==> zero_frame()._pad[i] == 0,
{
}

/// A buffer of `len` bytes at `buf_ptr` may be read on behalf of a task:
/// it is not empty, no longer than [`MAX_WRITE_LEN`], and lies wholly in
/// user-accessible memory.
pub open spec fn write_args_valid(buf_ptr: usize, len: usize) -> bool {
    &&& 0 < len <= MAX_WRITE_LEN
    &&& USER_RAM_START <= buf_ptr
    &&& buf_ptr + len <= USER_RAM_END
}

/// Validate the pointer and length of a write call.
/// Returns `(valid, len)`, with a length of zero when the arguments are
/// rejected.
pub fn validate_write_args(buf_ptr: usize, len: usize) -> (r: (bool, usize))
    ensures
        r.0 == write_args_valid(buf_ptr, len),
        r.1 == (if write_args_valid(buf_ptr, len) { len } else { 0 }),
{
    if len == 0 || len > 256 {
        return (false, 0);
    }
    if buf_ptr < 0x4000_0000 || buf_ptr > 0x4800_0000 - len {
        return (false, 0);
    }
    (true, len)
}

pub const SYS_YIELD: u64 = 0;

pub const SYS_WRITE: u64 = 4;

pub const SYS_NOTIFY: u64 = 5;

pub const SYS_WAIT_NOTIFY: u64 = 6;

pub const SYS_GRANT_CREATE: u64 = 7;

pub const SYS_GRANT_REVOKE: u64 = 8;

pub const SYS_IRQ_BIND: u64 = 9;

pub const SYS_IRQ_ACK: u64 = 10;

pub const SYS_DEVICE_MAP: u64 = 11;

pub const SYS_HEARTBEAT: u64 = 12;

pub const SYS_EXIT: u64 = 13;

/// Register that carries the syscall number.
pub const REG_SYSCALL: usize = 7;

/// Register that carries the endpoint, or the target task of a
/// notification, or the peer of a grant.
pub const REG_ENDPOINT: usize = 6;

/// Result of a notification sent to a task that does not exist.
pub const ERR_NOTIFY_TARGET: u64 = 0xFFFF_DEAD;

/// What is left to do on the hardware after a syscall.
#[derive(Clone, Copy, PartialEq, Eq, Debug, Structural)]
pub enum SvcAction {
    /// Nothing but to resume the current task.
    Resume,
    /// Copy `len` bytes at `buf` to the console.
    ConsoleWrite { buf: usize, len: usize },
    /// Map the page of grant `grant_id` for its owner and its peer.
    MapGrant { grant_id: usize },
    /// Unmap the page at `phys_addr` for `peer`.
    UnmapGrant { phys_addr: u64, peer: usize },
    /// Enable (unmask) `intid` in the interrupt controller.
    EnableIntid { intid: u32 },
    /// Make the registers of device `device_id` accessible to `task`.
    MapDevice { device_id: u64, task: usize },
    /// The calling task faulted: release what it held in hardware.
    TaskFaulted { task: usize },
    /// The calling task exited: release what it held in hardware.
    TaskExited { task: usize },
}

/// A register value as a table index; a value too large for an index
/// becomes the largest index, which no table has.
pub open spec fn index_of(v: u64) -> usize {
    if v > usize::MAX {
        usize::MAX
    } else {
        v as usize
    }
}

/// A register value as a table index.
pub fn to_index(v: u64) -> (i: usize)
    ensures
        i == index_of(v),
{
    if v > usize::MAX as u64 {
        usize::MAX
    } else {
        v as usize
    }
}

/// The low 32 bits of a register value.
pub open spec fn low_word(v: u64) -> u32 {
    (v & 0xFFFF_FFFF) as u32
}

/// The low 32 bits of a register value.
pub fn to_intid(v: u64) -> (w: u32)
    ensures
        w == low_word(v),
{
    let low = v & 0xFFFF_FFFF;
    assert(low <= 0xFFFF_FFFF) by (bit_vector)
        requires
            low == v & 0xFFFF_FFFF,
    ;
    low as u32
}

/// The frame with register `reg` set to `val`.
pub open spec fn with_reg(frame: TrapFrame, reg: int, val: u64) -> TrapFrame {
    TrapFrame { x: vstd::array::spec_array_update(frame.x, reg, val), ..frame }
}

/// The buffer of a write call, as the caller passed it.
pub open spec fn write_buf(frame: TrapFrame) -> usize {
    index_of(frame.x[0])
}

/// The length of a write call, as the caller passed it.
pub open spec fn write_len(frame: TrapFrame) -> usize {
    index_of(frame.x[1])
}

/// A write call: check the buffer the caller passed in `x0` (address)
/// and `x1` (length).  A buffer that passes is to be copied to the
/// console; one that does not is ignored.
pub fn handle_sys_write(frame: &TrapFrame) -> (action: SvcAction)
    ensures
        action == (if write_args_valid(write_buf(*frame), write_len(*frame)) {
            SvcAction::ConsoleWrite { buf: write_buf(*frame), len: write_len(*frame) }
        } else {
            SvcAction::Resume
        }),
{
    let buf_ptr = to_index(frame.x[0]);
    let len = to_index(frame.x[1]);
    let (valid, checked_len) = validate_write_args(buf_ptr, len);
    if !valid {
        return SvcAction::Resume;
    }
    SvcAction::ConsoleWrite { buf: buf_ptr, len: checked_len }
}

/// The kernel state after a notify call with `frame`: the bits in `x0`
/// are delivered to the task named in `x6`.  A target that does not
/// exist, or no bits at all, changes nothing.
pub open spec fn notify_sent(k: KernelView, frame: TrapFrame) -> KernelView {
    let target = index_of(frame.x[6]);
    if target >= NUM_TASKS || frame.x[0] == 0 {
        k
    } else {
        k.with_tcb(target as int, notified(k.tcbs[target as int], frame.x[0]))
    }
}

/// The caller's frame after a notify call: `x0` reports a target that
/// does not exist.
pub open spec fn frame_after_notify(frame: TrapFrame) -> TrapFrame {
    if index_of(frame.x[6]) >= NUM_TASKS {
        with_reg(frame, 0, ERR_NOTIFY_TARGET)
    } else {
        frame
    }
}

/// A notify call: deliver the notification bits in `x0` to the task
/// named in `x6`.  If the target is blocked waiting for a notification
/// it is unblocked at once.
pub fn handle_notify(k: &mut Kernel, frame: &mut TrapFrame)
    ensures
        final(k)@ == notify_sent(old(k)@, *old(frame)),
        *final(frame) == frame_after_notify(*old(frame)),
        final(k).same_but_tcbs(old(k)),
        final(k).keeps_identity(old(k)),
{
    let target_id = to_index(frame.x[6]);
    let bits = frame.x[0];
    if target_id >= NUM_TASKS {
        frame.x[0] = 0xFFFF_DEAD;
        return ;
    }
    if bits == 0 {
        return ;
    }
    crate::kernel::sched::deliver_notification(k, target_id, bits);
    proof {
        assert(k@.endpoints =~= old(k)@.endpoints);
    }
}

/// The control block of a task that begins to wait for a notification.
pub open spec fn waiting_for_notification(t: Tcb, frame: TrapFrame) -> Tcb {
    Tcb { context: frame, notify_waiting: true, state: TaskState::Blocked, ..t }
}

/// The kernel state after a wait-for-notify call with `frame`: pending
/// bits are handed over and cleared; without pending bits the caller
/// blocks and another task is scheduled.
pub open spec fn notify_awaited(k: KernelView, frame: TrapFrame) -> KernelView {
    let cur = k.current as int;
    if k.tcbs[cur].notify_pending != 0 {
        k.with_tcb(cur, Tcb { notify_pending: 0, ..k.tcbs[cur] })
    } else {
        scheduled(k.with_tcb(cur, waiting_for_notification(k.tcbs[cur], frame)), frame)
    }
}

/// The frame execution resumes with after a wait-for-notify call.
pub open spec fn frame_after_wait_notify(k: KernelView, frame: TrapFrame) -> TrapFrame {
    let cur = k.current as int;
    if k.tcbs[cur].notify_pending != 0 {
        with_reg(frame, 0, k.tcbs[cur].notify_pending)
    } else {
        resumed_frame(k.with_tcb(cur, waiting_for_notification(k.tcbs[cur], frame)), frame)
    }
}

/// A wait-for-notify call: return the pending notification bits in `x0`
/// and clear them; if none are pending, block the caller until some
/// arrive and schedule another task.
pub fn handle_wait_notify(k: &mut Kernel, frame: &mut TrapFrame)
    requires
        old(k).current < NUM_TASKS,
    ensures
        final(k)@ == notify_awaited(old(k)@, *old(frame)),
        *final(frame) == frame_after_wait_notify(old(k)@, *old(frame)),
        final(k).current < NUM_TASKS,
        final(k).endpoints == old(k).endpoints,
        final(k).grants == old(k).grants,
        final(k).irq_bindings == old(k).irq_bindings,
        final(k).keeps_identity(old(k)),
{
    let current = k.current;
    let pending = k.tcbs[current].notify_pending;
    if pending != 0 {
        frame.x[0] = pending;
        k.tcbs[current].notify_pending = 0;
        proof {
            assert(k@.endpoints =~= old(k)@.endpoints);
            assert(k@.tcbs =~= notify_awaited(old(k)@, *old(frame)).tcbs);
        }
    } else {
        crate::kernel::sched::save_frame(k, current, frame);
        k.tcbs[current].notify_waiting = true;
        crate::kernel::sched::set_task_state(k, current, TaskState::Blocked);
        proof {
            let cur = current as int;
            let want = old(k)@.with_tcb(
                cur,
                waiting_for_notification(old(k).tcbs[cur], *old(frame)),
            );
            assert(k@.endpoints =~= want.endpoints);
            assert(k@.tcbs =~= want.tcbs);
            assert(k@ == want);
        }
        schedule(k, frame);
    }
}

/// A grant-create call: `x0` names the grant page, `x6` the peer.  The
/// result code goes to `x0`.
pub fn handle_grant_create(k: &mut Kernel, frame: &mut TrapFrame) -> (action: SvcAction)
    ensures
        final(k).keeps_identity(old(k)),
        final(k).grants@ == created(
            old(k).grants@,
            index_of(old(frame).x[0]),
            old(k).current,
            index_of(old(frame).x[6]),
        ),
        *final(frame) == with_reg(
            *old(frame),
            0,
            crate::kernel::grant::create_code(
                old(k).grants@,
                index_of(old(frame).x[0]),
                old(k).current,
                index_of(old(frame).x[6]),
            ),
        ),
        action == grant_create_action(old(k)@, *old(frame)),
        final(k).same_but_grants(old(k)),
{
    let grant_id = to_index(frame.x[0]);
    let peer_id = to_index(frame.x[6]);
    let current = k.current;
    let result = grant_create(&mut k.grants, grant_id, current, peer_id);
    frame.x[0] = result;
    if result == 0 {
        SvcAction::MapGrant { grant_id }
    } else {
        SvcAction::Resume
    }
}

/// What is left to do after a grant-create call.
pub open spec fn grant_create_action(k: KernelView, frame: TrapFrame) -> SvcAction {
    if crate::kernel::grant::create_code(
        k.grants,
        index_of(frame.x[0]),
        k.current,
        index_of(frame.x[6]),
    ) == 0 {
        SvcAction::MapGrant { grant_id: index_of(frame.x[0]) }
    } else {
        SvcAction::Resume
    }
}

/// What is left to do after a grant-revoke call: the peer of a grant
/// that was active and is revoked loses the page.
pub open spec fn grant_revoke_action(k: KernelView, frame: TrapFrame) -> SvcAction {
    let id = index_of(frame.x[0]);
    if id < crate::kernel::grant::MAX_GRANTS && crate::kernel::grant::revoke_code(
        k.grants,
        id,
        k.current,
    ) == 0 && k.grants[id as int].active {
        if let Some(peer) = k.grants[id as int].peer {
            SvcAction::UnmapGrant { phys_addr: k.grants[id as int].phys_addr, peer }
        } else {
            SvcAction::Resume
        }
    } else {
        SvcAction::Resume
    }
}

/// A grant-revoke call: `x0` names the grant page.  The result code
/// goes to `x0`.
pub fn handle_grant_revoke(k: &mut Kernel, frame: &mut TrapFrame) -> (action: SvcAction)
    ensures
        final(k).keeps_identity(old(k)),
        final(k).grants@ == revoked_in(old(k).grants@, index_of(old(frame).x[0]), old(k).current),
        *final(frame) == with_reg(
            *old(frame),
            0,
            crate::kernel::grant::revoke_code(
                old(k).grants@,
                index_of(old(frame).x[0]),
                old(k).current,
            ),
        ),
        action == grant_revoke_action(old(k)@, *old(frame)),
        final(k).same_but_grants(old(k)),
{
    let grant_id = to_index(frame.x[0]);
    let current = k.current;
    let mut action = SvcAction::Resume;
    if grant_id < crate::kernel::grant::MAX_GRANTS && k.grants[grant_id].active {
        match k.grants[grant_id].peer {
            Some(peer) => {
                action = SvcAction::UnmapGrant { phys_addr: k.grants[grant_id].phys_addr, peer };
            },
            None => {},
        }
    }
    let result = grant_revoke(&mut k.grants, grant_id, current);
    frame.x[0] = result;
    if result == 0 {
        action
    } else {
        SvcAction::Resume
    }
}

/// An IRQ-bind call: `x0` names the INTID, `x1` the notification bit.
/// The result code goes to `x0`.
pub fn handle_irq_bind(k: &mut Kernel, frame: &mut TrapFrame) -> (action: SvcAction)
    requires
        old(k).current < NUM_TASKS,
    ensures
        final(k).keeps_identity(old(k)),
        final(k).irq_bindings@ == bound(
            old(k).irq_bindings@,
            low_word(old(frame).x[0]),
            old(k).current,
            old(frame).x[1],
        ),
        *final(frame) == with_reg(
            *old(frame),
            0,
            crate::kernel::irq::bind_code(
                old(k).irq_bindings@,
                low_word(old(frame).x[0]),
                old(frame).x[1],
            ),
        ),
        action == irq_bind_action(old(k)@, *old(frame)),
        final(k).same_but_irqs(old(k)),
        targets_in_range(old(k).irq_bindings@) ==> targets_in_range(final(k).irq_bindings@),
{
    let intid = to_intid(frame.x[0]);
    let notify_bit = frame.x[1];
    let current = k.current;
    let result = irq_bind(&mut k.irq_bindings, intid, current, notify_bit);
    frame.x[0] = result;
    if result == 0 {
        SvcAction::EnableIntid { intid }
    } else {
        SvcAction::Resume
    }
}

/// What is left to do after an IRQ-bind call.
pub open spec fn irq_bind_action(k: KernelView, frame: TrapFrame) -> SvcAction {
    if crate::kernel::irq::bind_code(k.irq_bindings, low_word(frame.x[0]), frame.x[1]) == 0 {
        SvcAction::EnableIntid { intid: low_word(frame.x[0]) }
    } else {
        SvcAction::Resume
    }
}

/// What is left to do after an IRQ-ack call.
pub open spec fn irq_ack_action(k: KernelView, frame: TrapFrame) -> SvcAction {
    if ack_unmasks(k.irq_bindings, low_word(frame.x[0]), k.current) {
        SvcAction::EnableIntid { intid: low_word(frame.x[0]) }
    } else {
        SvcAction::Resume
    }
}

/// An IRQ-ack call: `x0` names the INTID.  The result code goes to
/// `x0`.
pub fn handle_irq_ack(k: &mut Kernel, frame: &mut TrapFrame) -> (action: SvcAction)
    ensures
        final(k).keeps_identity(old(k)),
        final(k).irq_bindings@ == acked(
            old(k).irq_bindings@,
            low_word(old(frame).x[0]),
            old(k).current,
        ),
        *final(frame) == with_reg(
            *old(frame),
            0,
            crate::kernel::irq::ack_code(
                old(k).irq_bindings@,
                low_word(old(frame).x[0]),
                old(k).current,
            ),
        ),
        action == irq_ack_action(old(k)@, *old(frame)),
        final(k).same_but_irqs(old(k)),
        targets_in_range(old(k).irq_bindings@) ==> targets_in_range(final(k).irq_bindings@),
{
    let intid = to_intid(frame.x[0]);
    let current = k.current;
    let was_pending = crate::kernel::irq::is_pending(&k.irq_bindings, intid);
    let result = irq_ack(&mut k.irq_bindings, intid, current);
    frame.x[0] = result;
    if result == 0 && was_pending {
        SvcAction::EnableIntid { intid }
    } else {
        SvcAction::Resume
    }
}

/// What is left to do after a device-map call.
pub open spec fn device_map_action(k: KernelView, frame: TrapFrame) -> SvcAction {
    if crate::mmu::device_map_code(frame.x[0], k.current) == 0 {
        SvcAction::MapDevice { device_id: frame.x[0], task: k.current }
    } else {
        SvcAction::Resume
    }
}

/// A device-map call: `x0` names the device.  The result code goes to
/// `x0`.
pub fn handle_device_map(k: &Kernel, frame: &mut TrapFrame) -> (action: SvcAction)
    ensures
        *final(frame) == with_reg(
            *old(frame),
            0,
            crate::mmu::device_map_code(old(frame).x[0], k.current),
        ),
        action == device_map_action(k@, *old(frame)),
{
    let device_id = frame.x[0];
    let current = k.current;
    let result = crate::mmu::map_device_for_task(device_id, current);
    frame.x[0] = result;
    if result == 0 {
        SvcAction::MapDevice { device_id, task: current }
    } else {
        SvcAction::Resume
    }
}

/// The kernel state after a heartbeat call with `frame`: the caller's
/// heartbeat interval is the value of `x0` and its last heartbeat is now.
pub open spec fn heartbeat_recorded(k: KernelView, frame: TrapFrame) -> KernelView {
    let cur = k.current as int;
    k.with_tcb(
        cur,
        Tcb { heartbeat_interval: frame.x[0], last_heartbeat: k.tick_count, ..k.tcbs[cur] },
    )
}

/// A heartbeat call: register or refresh the caller's watchdog.  `x0`
/// is the heartbeat interval in ticks (0 disables the watchdog); the
/// result 0 goes to `x0`.
pub fn handle_heartbeat(k: &mut Kernel, frame: &mut TrapFrame)
    requires
        old(k).current < NUM_TASKS,
    ensures
        final(k)@ == heartbeat_recorded(old(k)@, *old(frame)),
        *final(frame) == with_reg(*old(frame), 0, 0),
        final(k).same_but_tcbs(old(k)),
        final(k).keeps_identity(old(k)),
{
    let interval = frame.x[0];
    let current = k.current;
    record_heartbeat(k, current, interval);
    frame.x[0] = 0;
    proof {
        assert(k@.endpoints =~= old(k)@.endpoints);
    }
}

/// The kernel lets the call in `frame` through: the pair of syscall
/// number (`x7`) and endpoint (`x6`) is one of the ABI and the caller's
/// capabilities cover what it needs.
pub open spec fn svc_allowed(k: KernelView, frame: TrapFrame) -> bool {
    syscall_allowed(k.tcbs[k.current as int].caps, frame.x[7], frame.x[6])
}

/// The kernel state after the syscall in `frame`.
///
/// A call that is not let through is not carried out: the
/// caller faults and another task is scheduled.
pub open spec fn svc_state(k: KernelView, frame: TrapFrame) -> KernelView {
    let nr = frame.x[7];
    let cur = k.current;
    if !svc_allowed(k, frame) {
        scheduled(fault_of(k, cur), frame)
    } else if nr == SYS_YIELD {
        scheduled(k, frame)
    } else if nr == crate::kernel::ipc::SYS_SEND {
        sent(k, frame, index_of(frame.x[6]))
    } else if nr == crate::kernel::ipc::SYS_RECV {
        recvd(k, frame, index_of(frame.x[6]))
    } else if nr == crate::kernel::ipc::SYS_CALL {
        call_made(k, frame, index_of(frame.x[6]))
    } else if nr == SYS_WRITE {
        k
    } else if nr == SYS_NOTIFY {
        notify_sent(k, frame)
    } else if nr == SYS_WAIT_NOTIFY {
        notify_awaited(k, frame)
    } else if nr == SYS_GRANT_CREATE {
        KernelView {
            grants: created(k.grants, index_of(frame.x[0]), cur, index_of(frame.x[6])),
            ..k
        }
    } else if nr == SYS_GRANT_REVOKE {
        KernelView { grants: revoked_in(k.grants, index_of(frame.x[0]), cur), ..k }
    } else if nr == SYS_IRQ_BIND {
        KernelView {
            irq_bindings: bound(k.irq_bindings, low_word(frame.x[0]), cur, frame.x[1]),
            ..k
        }
    } else if nr == SYS_IRQ_ACK {
        KernelView { irq_bindings: acked(k.irq_bindings, low_word(frame.x[0]), cur), ..k }
    } else if nr == SYS_DEVICE_MAP {
        k
    } else if nr == SYS_HEARTBEAT {
        heartbeat_recorded(k, frame)
    } else {
        scheduled(exit_of(k, cur), frame)
    }
}

/// The frame execution resumes with after the syscall in `frame`: the
/// caller's own, with the result of the call where it has one, or the
/// frame of the task scheduled instead.
pub open spec fn svc_frame(k: KernelView, frame: TrapFrame) -> TrapFrame {
    let nr = frame.x[7];
    let cur = k.current;
    if !svc_allowed(k, frame) {
        resumed_frame(fault_of(k, cur), frame)
    } else if nr == SYS_YIELD {
        resumed_frame(k, frame)
    } else if nr == crate::kernel::ipc::SYS_SEND {
        frame_after_send(k, frame, index_of(frame.x[6]))
    } else if nr == crate::kernel::ipc::SYS_RECV {
        frame_after_recv(k, frame, index_of(frame.x[6]))
    } else if nr == crate::kernel::ipc::SYS_CALL {
        frame_after_call(k, frame, index_of(frame.x[6]))
    } else if nr == SYS_WRITE {
        frame
    } else if nr == SYS_NOTIFY {
        frame_after_notify(frame)
    } else if nr == SYS_WAIT_NOTIFY {
        frame_after_wait_notify(k, frame)
    } else if nr == SYS_GRANT_CREATE {
        with_reg(
            frame,
            0,
            crate::kernel::grant::create_code(
                k.grants,
                index_of(frame.x[0]),
                cur,
                index_of(frame.x[6]),
            ),
        )
    } else if nr == SYS_GRANT_REVOKE {
        with_reg(frame, 0, crate::kernel::grant::revoke_code(k.grants, index_of(frame.x[0]), cur))
    } else if nr == SYS_IRQ_BIND {
        with_reg(
            frame,
            0,
            crate::kernel::irq::bind_code(k.irq_bindings, low_word(frame.x[0]), frame.x[1]),
        )
    } else if nr == SYS_IRQ_ACK {
        with_reg(frame, 0, crate::kernel::irq::ack_code(k.irq_bindings, low_word(frame.x[0]), cur))
    } else if nr == SYS_DEVICE_MAP {
        with_reg(frame, 0, crate::mmu::device_map_code(frame.x[0], cur))
    } else if nr == SYS_HEARTBEAT {
        with_reg(frame, 0, 0)
    } else {
        resumed_frame(exit_of(k, cur), frame)
    }
}

/// What is left to do on the hardware after the syscall in `frame`.
pub open spec fn svc_action(k: KernelView, frame: TrapFrame) -> SvcAction {
    let nr = frame.x[7];
    if !svc_allowed(k, frame) {
        SvcAction::TaskFaulted { task: k.current }
    } else if nr == SYS_WRITE {
        if write_args_valid(write_buf(frame), write_len(frame)) {
            SvcAction::ConsoleWrite { buf: write_buf(frame), len: write_len(frame) }
        } else {
            SvcAction::Resume
        }
    } else if nr == SYS_GRANT_CREATE {
        grant_create_action(k, frame)
    } else if nr == SYS_GRANT_REVOKE {
        grant_revoke_action(k, frame)
    } else if nr == SYS_IRQ_BIND {
        irq_bind_action(k, frame)
    } else if nr == SYS_IRQ_ACK {
        irq_ack_action(k, frame)
    } else if nr == SYS_DEVICE_MAP {
        device_map_action(k, frame)
    } else if nr == SYS_EXIT {
        SvcAction::TaskExited { task: k.current }
    } else {
        SvcAction::Resume
    }
}

/// The syscall entry: authorize the call in `frame` and carry it out.
///
/// The syscall number is read from `x7`, the endpoint from `x6`.  The
/// capability the pair needs is checked against the caller's mask.  A
/// call that is not authorized, because the caller lacks a capability or
/// because no capability could authorize it (an unknown syscall number,
/// an endpoint that does not exist), is not carried out: the caller is
/// marked Faulted and another task is scheduled.  An authorized call is
/// dispatched to its handler.  On return `frame` is the frame to resume
/// with, that of the task that is current then.
pub fn handle_svc(k: &mut Kernel, frame: &mut TrapFrame) -> (action: SvcAction)
    requires
        old(k).wf(),
        old(k)@.senders_in_range(),
    ensures
        final(k).keeps_identity(old(k)),
        final(k).wf(),
        final(k)@.senders_in_range(),
        targets_in_range(old(k).irq_bindings@) ==> targets_in_range(final(k).irq_bindings@),
        final(k)@ == svc_state(old(k)@, *old(frame)),
        *final(frame) == svc_frame(old(k)@, *old(frame)),
        action == svc_action(old(k)@, *old(frame)),
        !svc_allowed(old(k)@, *old(frame)) && old(k).current != crate::kernel::sched::IDLE_TASK_ID
            ==> final(k).tcbs[old(k).current as int].state == TaskState::Faulted,
        crate::kernel::waiting::orderly(old(k)@) ==> crate::kernel::waiting::orderly(final(k)@),
{
    proof {
        if crate::kernel::waiting::orderly(old(k)@) {
            crate::kernel::waiting::lemma_svc_keeps_order(old(k)@, *old(frame));
        }
    }
    let syscall_nr = frame.x[REG_SYSCALL];
    let ep_id = frame.x[REG_ENDPOINT];
    let current = k.current;
    let task_caps = k.tcbs[current].caps;
    let ghost kv = old(k)@;
    let ghost fr = *old(frame);

    let allowed = match required_capability(syscall_nr, ep_id) {
        Some(required) => cap_check(task_caps, required),
        None => false,
    };
    if !allowed {
        proof {
            lemma_denied_call_faults(kv, fr);
        }
        fault_current_task(k, frame);
        return SvcAction::TaskFaulted { task: current };
    }
    assert(svc_allowed(kv, fr));
    if syscall_nr == SYS_YIELD {
        schedule(k, frame);
        SvcAction::Resume
    } else if syscall_nr == crate::kernel::ipc::SYS_SEND {
        sys_send(k, frame, to_index(ep_id));
        SvcAction::Resume
    } else if syscall_nr == crate::kernel::ipc::SYS_RECV {
        sys_recv(k, frame, to_index(ep_id));
        SvcAction::Resume
    } else if syscall_nr == crate::kernel::ipc::SYS_CALL {
        sys_call(k, frame, to_index(ep_id));
        SvcAction::Resume
    } else if syscall_nr == SYS_WRITE {
        handle_sys_write(frame)
    } else if syscall_nr == SYS_NOTIFY {
        handle_notify(k, frame);
        proof {
            crate::kernel::state::lemma_tables_kept(old(k), k);
        }
        SvcAction::Resume
    } else if syscall_nr == SYS_WAIT_NOTIFY {
        handle_wait_notify(k, frame);
        proof {
            crate::kernel::state::lemma_tables_kept(old(k), k);
        }
        SvcAction::Resume
    } else if syscall_nr == SYS_GRANT_CREATE {
        let action = handle_grant_create(k, frame);
        proof {
            assert(k@.endpoints =~= kv.endpoints);
            crate::kernel::state::lemma_tables_kept(old(k), k);
        }
        action
    } else if syscall_nr == SYS_GRANT_REVOKE {
        let action = handle_grant_revoke(k, frame);
        proof {
            assert(k@.endpoints =~= kv.endpoints);
            crate::kernel::state::lemma_tables_kept(old(k), k);
        }
        action
    } else if syscall_nr == SYS_IRQ_BIND {
        let action = handle_irq_bind(k, frame);
        proof {
            assert(k@.endpoints =~= kv.endpoints);
            crate::kernel::state::lemma_tables_kept(old(k), k);
        }
        action
    } else if syscall_nr == SYS_IRQ_ACK {
        let action = handle_irq_ack(k, frame);
        proof {
            assert(k@.endpoints =~= kv.endpoints);
            crate::kernel::state::lemma_tables_kept(old(k), k);
        }
        action
    } else if syscall_nr == SYS_DEVICE_MAP {
        handle_device_map(k, frame)
    } else if syscall_nr == SYS_HEARTBEAT {
        handle_heartbeat(k, frame);
        proof {
            crate::kernel::state::lemma_tables_kept(old(k), k);
        }
        SvcAction::Resume
    } else {
        sys_exit(k, frame, frame.x[0]);
        SvcAction::TaskExited { task: current }
    }
}

/// A call that is not let through is not carried out and
/// faults the caller: unless the caller is the idle task, which is
/// restarted at once when nothing else can run, it is Faulted
/// afterwards, and what is left to do is to release its hardware
/// resources, never to write to the console or to map anything.
pub proof fn lemma_denied_call_faults(k: KernelView, frame: TrapFrame)
    requires
        k.wf(),
        !svc_allowed(k, frame),
    ensures
        svc_action(k, frame) == (SvcAction::TaskFaulted { task: k.current }),
        svc_state(k, frame) == scheduled(fault_of(k, k.current), frame),
        k.current != crate::kernel::sched::IDLE_TASK_ID ==> svc_state(
            k,
            frame,
        ).tcbs[k.current as int].state == TaskState::Faulted,
        k.current != crate::kernel::sched::IDLE_TASK_ID ==> svc_state(k, frame).current
            != k.current,
{
    let f = fault_of(k, k.current);
    crate::kernel::sched::lemma_scheduled_task(f, frame);
    let c = crate::kernel::sched::candidates(f, frame);
    assert(c[k.current as int].state == TaskState::Faulted);
}

/// Exception class of a supervisor call.
pub const EC_SVC: u64 = 0x15;

/// Exception class of an instruction abort taken from user mode.
pub const EC_INSTR_ABORT_LOWER: u64 = 0x20;

/// Exception class of an instruction abort taken from kernel mode.
pub const EC_INSTR_ABORT_SAME: u64 = 0x21;

/// Exception class of a data abort taken from user mode.
pub const EC_DATA_ABORT_LOWER: u64 = 0x24;

/// Exception class of a data abort taken from kernel mode.
pub const EC_DATA_ABORT_SAME: u64 = 0x25;

/// Exception class of a trapped floating-point instruction.
pub const EC_FP_TRAP: u64 = 0x07;

/// Source of an exception taken from user mode.
pub const SOURCE_LOWER_EL: u64 = 2;

/// Why a synchronous exception was taken.
#[derive(Clone, Copy, PartialEq, Eq, Debug, Structural)]
pub enum SyncClass {
    /// A task made a syscall.
    Syscall,
    /// A task did something it may not: it faults, the kernel goes on.
    TaskFault,
    /// The kernel itself faulted: the machine halts.
    KernelFault,
}

/// The exception class field of a syndrome value.
pub open spec fn exception_class(esr: u64) -> u64 {
    (esr >> 26) & 0x3F
}

/// Why a synchronous exception with syndrome `esr` from `source` was
/// taken.  An abort names its origin in the exception class; every other
/// fault is the task's when it comes from user mode.
pub open spec fn sync_class(esr: u64, source: u64) -> SyncClass {
    let ec = exception_class(esr);
    if ec == EC_SVC {
        SyncClass::Syscall
    } else if ec == EC_INSTR_ABORT_LOWER || ec == EC_DATA_ABORT_LOWER {
        SyncClass::TaskFault
    } else if ec == EC_INSTR_ABORT_SAME || ec == EC_DATA_ABORT_SAME {
        SyncClass::KernelFault
    } else if source == SOURCE_LOWER_EL {
        SyncClass::TaskFault
    } else {
        SyncClass::KernelFault
    }
}

/// Classify a synchronous exception.
pub fn classify_sync(esr: u64, source: u64) -> (class: SyncClass)
    ensures
        class == sync_class(esr, source),
{
    let ec = (esr >> 26) & 0x3F;
    if ec == 0x15 {
        SyncClass::Syscall
    } else if ec == 0x20 || ec == 0x21 {
        if ec == 0x20 {
            SyncClass::TaskFault
        } else {
            SyncClass::KernelFault
        }
    } else if ec == 0x24 || ec == 0x25 {
        if ec == 0x24 {
            SyncClass::TaskFault
        } else {
            SyncClass::KernelFault
        }
    } else if source == 2 {
        SyncClass::TaskFault
    } else {
        SyncClass::KernelFault
    }
}

/// How a synchronous exception ended.
#[derive(Clone, Copy, PartialEq, Eq, Debug, Structural)]
pub enum SyncOutcome {
    /// A syscall was handled; resume after doing what is left to do.
    Syscall { action: SvcAction },
    /// The task that trapped faulted; resume with the task scheduled
    /// instead.
    TaskFaulted { task: usize },
    /// The kernel faulted: nothing was changed, the machine must halt.
    Halt,
}

/// Dispatch a synchronous exception taken with `frame`, syndrome `esr`
/// and source `source`.
///
/// A syscall is authorized and carried out.  A fault of a task marks the task
/// Faulted and schedules another.  A fault of the kernel itself changes
/// nothing and asks for the machine to halt.
pub fn exception_dispatch_sync(
    k: &mut Kernel,
    frame: &mut TrapFrame,
    esr: u64,
    source: u64,
) -> (out: SyncOutcome)
    requires
        old(k).wf(),
        old(k)@.senders_in_range(),
    ensures
        final(k).keeps_identity(old(k)),
        final(k).wf(),
        final(k)@.senders_in_range(),
        targets_in_range(old(k).irq_bindings@) ==> targets_in_range(final(k).irq_bindings@),
        sync_class(esr, source) == SyncClass::Syscall ==> final(k)@ == svc_state(
            old(k)@,
            *old(frame),
        ) && *final(frame) == svc_frame(old(k)@, *old(frame)) && out == (SyncOutcome::Syscall {
            action: svc_action(old(k)@, *old(frame)),
        }),
        sync_class(esr, source) == SyncClass::TaskFault ==> final(k)@ == scheduled(
            fault_of(old(k)@, old(k).current),
            *old(frame),
        ) && *final(frame) == resumed_frame(fault_of(old(k)@, old(k).current), *old(frame)) && out
            == (SyncOutcome::TaskFaulted { task: old(k).current }),
        sync_class(esr, source) == SyncClass::KernelFault ==> *final(k) == *old(k) && *final(frame)
            == *old(frame) && out == SyncOutcome::Halt,
        crate::kernel::waiting::orderly(old(k)@) ==> crate::kernel::waiting::orderly(final(k)@),
{
    proof {
        if crate::kernel::waiting::orderly(old(k)@) {
            crate::kernel::waiting::lemma_task_fault_keeps_order(old(k)@, *old(frame));
        }
    }
    match classify_sync(esr, source) {
        SyncClass::Syscall => {
            let action = handle_svc(k, frame);
            SyncOutcome::Syscall { action }
        },
        SyncClass::TaskFault => {
            let task = k.current;
            fault_current_task(k, frame);
            SyncOutcome::TaskFaulted { task }
        },
        SyncClass::KernelFault => SyncOutcome::Halt,
    }
}

/// INTID that the interrupt controller reports when nothing is pending.
pub const INTID_SPURIOUS: u32 = 1023;

/// How an interrupt ended.
#[derive(Clone, Copy, PartialEq, Eq, Debug, Structural)]
pub enum IrqOutcome {
    /// Nothing was pending: return without signalling the end of an
    /// interrupt.
    Spurious,
    /// The tick was handled: re-arm the timer and signal the end of the
    /// interrupt.
    Tick,
    /// The interrupt went to the task that bound it: mask the INTID and
    /// signal the end of the interrupt.
    Routed,
    /// Nobody bound the interrupt: signal its end.
    Unbound,
}

/// What the interrupt `intid` leads to, given the IRQ table.
pub open spec fn irq_outcome(k: KernelView, intid: u32) -> IrqOutcome {
    if intid == INTID_SPURIOUS {
        IrqOutcome::Spurious
    } else if intid == crate::kernel::timer::TIMER_INTID {
        IrqOutcome::Tick
    } else if crate::kernel::irq::is_bound(k.irq_bindings, intid) {
        IrqOutcome::Routed
    } else {
        IrqOutcome::Unbound
    }
}

/// Dispatch the interrupt that the interrupt controller acknowledged as
/// `intid`: the timer's goes to the tick handler, any other to the task
/// that bound it.
pub fn exception_dispatch_irq(k: &mut Kernel, frame: &mut TrapFrame, intid: u32) -> (out:
    IrqOutcome)
    requires
        old(k).wf(),
        targets_in_range(old(k).irq_bindings@),
        old(k).tick_count < u64::MAX,
        old(k).epoch_ticks < u64::MAX,
        old(k).tcbs[old(k).current as int].ticks_used < u64::MAX,
    ensures
        final(k).keeps_identity(old(k)),
        final(k).wf(),
        targets_in_range(final(k).irq_bindings@),
        old(k)@.senders_in_range() ==> final(k)@.senders_in_range(),
        out == irq_outcome(old(k)@, intid),
        out == IrqOutcome::Spurious ==> *final(k) == *old(k) && *final(frame) == *old(frame),
        out == IrqOutcome::Tick ==> final(k)@ == scheduled(
            crate::kernel::timer::tick_accounted(old(k)@),
            *old(frame),
        ) && *final(frame) == resumed_frame(
            crate::kernel::timer::tick_accounted(old(k)@),
            *old(frame),
        ),
        out == IrqOutcome::Routed || out == IrqOutcome::Unbound ==> final(k)@
            == crate::kernel::irq::routed(old(k)@, intid) && *final(frame) == *old(frame),
        crate::kernel::waiting::orderly(old(k)@) ==> crate::kernel::waiting::orderly(final(k)@),
{
    proof {
        if crate::kernel::waiting::orderly(old(k)@) {
            crate::kernel::waiting::lemma_route_keeps_order(old(k)@, intid);
        }
    }
    if intid == INTID_SPURIOUS {
        return IrqOutcome::Spurious;
    }
    if intid == crate::kernel::timer::TIMER_INTID {
        crate::kernel::timer::tick_handler(k, frame);
        IrqOutcome::Tick
    } else {
        if crate::kernel::irq::irq_route(k, intid) {
            proof {
                crate::kernel::state::lemma_tables_kept(old(k), k);
            }
            IrqOutcome::Routed
        } else {
            IrqOutcome::Unbound
        }
    }
}

/// Kind of a memory fault, from its fault status code.
#[derive(Clone, Copy, PartialEq, Eq, Debug, Structural)]
pub enum FaultClass {
    Translation,
    AccessFlag,
    Permission,
    Other,
}

/// Decode a fault status code into its kind and the table level (0..3)
/// at which the fault arose.
pub fn fault_class(fsc: u64) -> (r: (FaultClass, u64))
    ensures
        r.1 == fsc & 0x3,
        r.0 == (if (fsc >> 2) & 0xF == 1 {
            FaultClass::Translation
        } else if (fsc >> 2) & 0xF == 2 {
            FaultClass::AccessFlag
        } else if (fsc >> 2) & 0xF == 3 {
            FaultClass::Permission
        } else {
            FaultClass::Other
        }),
{
    let level = fsc & 0x3;
    let kind = (fsc >> 2) & 0xF;
    if kind == 1 {
        (FaultClass::Translation, level)
    } else if kind == 2 {
        (FaultClass::AccessFlag, level)
    } else if kind == 3 {
        (FaultClass::Permission, level)
    } else {
        (FaultClass::Other, level)
    }
}

/// What kind of synchronous exception a syndrome value reports.
#[derive(Clone, Copy, PartialEq, Eq, Debug, Structural)]
pub enum AbortKind {
    /// An instruction could not be fetched.
    InstructionAbort,
    /// Data could not be read or written.
    DataAbort,
    /// A floating-point or vector instruction was trapped.
    FpTrap,
    /// Anything else.
    Unhandled,
}

/// The kind of exception that [`exception_class`] gives.
pub open spec fn abort_kind_of(esr: u64) -> AbortKind {
    let ec = exception_class(esr);
    if ec == EC_INSTR_ABORT_LOWER || ec == EC_INSTR_ABORT_SAME {
        AbortKind::InstructionAbort
    } else if ec == EC_DATA_ABORT_LOWER || ec == EC_DATA_ABORT_SAME {
        AbortKind::DataAbort
    } else if ec == EC_FP_TRAP {
        AbortKind::FpTrap
    } else {
        AbortKind::Unhandled
    }
}

/// What a syndrome value tells about a fault, for the fault report.
#[derive(Clone, Copy, PartialEq, Eq, Debug, Structural)]
pub struct FaultReport {
    /// the exception class, bits 26 to 31 of the syndrome
    pub ec: u64,
    /// the kind of exception
    pub kind: AbortKind,
    /// an abort taken from user mode, as its exception class says
    pub lower_el: bool,
    /// the fault status code, bits 0 to 5
    pub status: u64,
    /// a data abort on a write; `false` for a read and for every other
    /// kind of exception
    pub write: bool,
}

/// Read a syndrome value for the fault report: the exception class and
/// its kind, whether an abort names user mode as its origin, the fault
/// status code, and whether a data abort came of a write (bit 6).
pub fn fault_report(esr: u64) -> (r: FaultReport)
    ensures
        r.ec == exception_class(esr),
        r.kind == abort_kind_of(esr),
        r.lower_el == (r.ec == EC_INSTR_ABORT_LOWER || r.ec == EC_DATA_ABORT_LOWER),
        r.status == esr & 0x3F,
        r.write == (r.kind == AbortKind::DataAbort && (esr >> 6) & 1 == 1),
{
    let ec = (esr >> 26) & 0x3F;
    let kind = if ec == EC_INSTR_ABORT_LOWER || ec == EC_INSTR_ABORT_SAME {
        AbortKind::InstructionAbort
    } else if ec == EC_DATA_ABORT_LOWER || ec == EC_DATA_ABORT_SAME {
        AbortKind::DataAbort
    } else if ec == EC_FP_TRAP {
        AbortKind::FpTrap
    } else {
        AbortKind::Unhandled
    };
    FaultReport {
        ec,
        kind,
        lower_el: ec == EC_INSTR_ABORT_LOWER || ec == EC_DATA_ABORT_LOWER,
        status: esr & 0x3F,
        write: (ec == EC_DATA_ABORT_LOWER || ec == EC_DATA_ABORT_SAME) && (esr >> 6) & 1 == 1,
    }
}

} // verus!
