//! Structured kernel log lines: `[TICK:XXXXXXXX] [TN] [LEVEL] message`.

use vstd::prelude::*;
use crate::uart::{hex_char, hex_digit};

verus! {

/// Log severity levels; a lower rank is more severe.
#[derive(Clone, Copy, PartialEq, Eq, Debug, Structural)]
pub enum LogLevel {
    Error,
    Warn,
    Info,
    Debug,
}

/// Highest rank that is logged.
pub const LOG_LEVEL: u8 = 2;

/// Length of the prefix of a log line.
pub const PREFIX_LEN: usize = 29;

/// Rank of a level, 0 for the most severe.
pub open spec fn rank_of(level: LogLevel) -> u8 {
    match level {
        LogLevel::Error => 0,
        LogLevel::Warn => 1,
        LogLevel::Info => 2,
        LogLevel::Debug => 3,
    }
}

/// Rank of a level, 0 for the most severe.
pub fn level_rank(level: LogLevel) -> (rank: u8)
    ensures
        rank == rank_of(level),
{
    match level {
        LogLevel::Error => 0,
        LogLevel::Warn => 1,
        LogLevel::Info => 2,
        LogLevel::Debug => 3,
    }
}

/// Whether messages of a level are logged.
pub fn level_enabled(level: LogLevel) -> (enabled: bool)
    ensures
        enabled == (rank_of(level) <= LOG_LEVEL),
{
    level_rank(level) <= LOG_LEVEL
}

/// The five letters of a level's tag, padded with a blank.
pub open spec fn level_letters(level: LogLevel) -> Seq<u8> {
    match level {
        LogLevel::Error => seq![0x45u8, 0x52, 0x52, 0x4F, 0x52],
        LogLevel::Warn => seq![0x57u8, 0x41, 0x52, 0x4E, 0x20],
        LogLevel::Info => seq![0x49u8, 0x4E, 0x46, 0x4F, 0x20],
        LogLevel::Debug => seq![0x44u8, 0x45, 0x42, 0x55, 0x47],
    }
}

/// The `i`-th of the low eight hexadecimal digits of `tick`, the most
/// significant first.
pub open spec fn tick_digit_at(tick: u64, i: int) -> u8 {
    hex_digit((tick >> (((7 - i) * 4) as u64)) & 0xF)
}

/// The prefix of a log line, `[TICK:XXXXXXXX] [TN] [LEVEL] `: the low
/// eight hexadecimal digits of the tick, the digit of the task, and the
/// tag of the level.
pub open spec fn prefix_text(level: LogLevel, tick: u64, task: usize) -> Seq<u8> {
    seq![0x5Bu8, 0x54, 0x49, 0x43, 0x4B, 0x3A] + Seq::new(8, |i: int| tick_digit_at(tick, i))
        + seq![0x5Du8, 0x20, 0x5B, 0x54, (0x30 + task) as u8, 0x5D, 0x20, 0x5B] + level_letters(
        level,
    ) + seq![0x5Du8, 0x20]
}

/// The prefix of a log line for a message logged at tick `tick` while
/// task `task` was current.  The task is printed as one character, the
/// digit of a task below ten.
pub fn log_prefix(level: LogLevel, tick: u64, task: usize) -> (text: [u8; 29])
    requires
        0x30 + task <= u8::MAX,
    ensures
        text@ == prefix_text(level, tick, task),
{
    let letters: [u8; 5] = match level {
        LogLevel::Error => [0x45, 0x52, 0x52, 0x4F, 0x52],
        LogLevel::Warn => [0x57, 0x41, 0x52, 0x4E, 0x20],
        LogLevel::Info => [0x49, 0x4E, 0x46, 0x4F, 0x20],
        LogLevel::Debug => [0x44, 0x45, 0x42, 0x55, 0x47],
    };
    assert(letters@ =~= level_letters(level));
    let mut text: [u8; 29] = [
        0x5B, 0x54, 0x49, 0x43, 0x4B, 0x3A,
        0, 0, 0, 0, 0, 0, 0, 0,
        0x5D, 0x20, 0x5B, 0x54, 0x30 + task as u8, 0x5D, 0x20, 0x5B,
        letters[0], letters[1], letters[2], letters[3], letters[4],
        0x5D, 0x20,
    ];
    let ghost start = text;
    let mut i: usize = 0;
    while i < 8
        invariant
            i <= 8,
            forall|j: int| 0 <= j < i ==> text[6 + j] == tick_digit_at(tick, j),
            forall|j: int| 0 <= j < 6 || 14 <= j < 29 ==> text[j] == start[j],
        decreases 8 - i,
    {
        let shift = ((7 - i) * 4) as u64;
        let nibble = (tick >> shift) & 0xF;
        assert((tick >> shift) & 0xF < 16) by (bit_vector);
        text[6 + i] = hex_char(nibble);
        i += 1;
    }
    assert(text@ =~= prefix_text(level, tick, task));
    text
}

} // verus!
