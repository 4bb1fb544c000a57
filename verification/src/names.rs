//! The fixed, ordered set of scheduler callback kinds and their printable
//! names.

use vstd::prelude::*;

verus! {

pub const STAT_NONE: u32 = 0;

pub const STAT_INIT: u32 = 1;

pub const STAT_EXIT: u32 = 2;

pub const STAT_INIT_TASK: u32 = 3;

pub const STAT_EXIT_TASK: u32 = 4;

pub const STAT_ENABLE: u32 = 5;

pub const STAT_DISABLE: u32 = 6;

pub const STAT_RUNNABLE: u32 = 7;

pub const STAT_RUNNING: u32 = 8;

pub const STAT_STOPPING: u32 = 9;

pub const STAT_QUIESCENT: u32 = 10;

pub const STAT_SELECT_CPU: u32 = 11;

pub const STAT_ENQUEUE: u32 = 12;

pub const STAT_DEQUEUE: u32 = 13;

pub const STAT_DISPATCH: u32 = 14;

pub const STAT_CPU_ONLINE: u32 = 15;

pub const STAT_CPU_OFFLINE: u32 = 16;

/// Number of distinct stat indices, the sentinel included.
pub const NR_STATS: u32 = 17;

/// The printable name of a stat index; indices beyond the known set render
/// as a placeholder.
pub open spec fn stat_name(idx: int) -> Seq<char> {
    if idx == 0 {
        "(none)"@
    } else if idx == 1 {
        "init"@
    } else if idx == 2 {
        "exit"@
    } else if idx == 3 {
        "init_task"@
    } else if idx == 4 {
        "exit_task"@
    } else if idx == 5 {
        "enable"@
    } else if idx == 6 {
        "disable"@
    } else if idx == 7 {
        "runnable"@
    } else if idx == 8 {
        "running"@
    } else if idx == 9 {
        "stopping"@
    } else if idx == 10 {
        "quiescent"@
    } else if idx == 11 {
        "select_cpu"@
    } else if idx == 12 {
        "enqueue"@
    } else if idx == 13 {
        "dequeue"@
    } else if idx == 14 {
        "dispatch"@
    } else if idx == 15 {
        "cpu_online"@
    } else if idx == 16 {
        "cpu_offline"@
    } else {
        "[ unknown ]"@
    }
}

/// The printable name of a stat index.
pub fn idx_to_name(stat_idx: u32) -> (r: &'static str)
    ensures
        r@ == stat_name(stat_idx as int),
{
    if stat_idx == STAT_NONE {
        "(none)"
    } else if stat_idx == STAT_INIT {
        "init"
    } else if stat_idx == STAT_EXIT {
        "exit"
    } else if stat_idx == STAT_INIT_TASK {
        "init_task"
    } else if stat_idx == STAT_EXIT_TASK {
        "exit_task"
    } else if stat_idx == STAT_ENABLE {
        "enable"
    } else if stat_idx == STAT_DISABLE {
        "disable"
    } else if stat_idx == STAT_RUNNABLE {
        "runnable"
    } else if stat_idx == STAT_RUNNING {
        "running"
    } else if stat_idx == STAT_STOPPING {
        "stopping"
    } else if stat_idx == STAT_QUIESCENT {
        "quiescent"
    } else if stat_idx == STAT_SELECT_CPU {
        "select_cpu"
    } else if stat_idx == STAT_ENQUEUE {
        "enqueue"
    } else if stat_idx == STAT_DEQUEUE {
        "dequeue"
    } else if stat_idx == STAT_DISPATCH {
        "dispatch"
    } else if stat_idx == STAT_CPU_ONLINE {
        "cpu_online"
    } else if stat_idx == STAT_CPU_OFFLINE {
        "cpu_offline"
    } else {
        "[ unknown ]"
    }
}

/// The name of a callback index held in a machine-sized integer; an index
/// beyond `u32` range is as unknown as any other out-of-table index.
pub fn idx_to_name_usize(idx: usize) -> (r: &'static str)
    ensures
        r@ == stat_name(idx as int),
{
    if idx <= u32::MAX as usize {
        idx_to_name(idx as u32)
    } else {
        "[ unknown ]"
    }
}

} // verus!
