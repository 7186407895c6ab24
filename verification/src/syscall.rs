//! Process-management syscalls: the decisions they make about the current
//! task's state, and the values they compute for the caller. The surrounding
//! kernel dispatches to these with the current task's control block; the
//! scheduling itself (switching to another task) happens outside.

use vstd::prelude::*;

use crate::config::{CLOCK_FREQ, MSEC_PER_SEC, USEC_PER_SEC};
use crate::task::{TaskControlBlock, TaskStatus};

verus! {

/// A point in time, split into seconds and microseconds.
#[derive(Copy, Clone, Debug, PartialEq, Eq)]
pub struct TimeVal {
    /// whole seconds
    pub sec: usize,
    /// microseconds below one second
    pub usec: usize,
}

/// Task information reported to the caller.
#[derive(Copy, Clone)]
pub struct TaskInfo {
    /// Task status in its life cycle.
    pub status: TaskStatus,
    /// The numbers of syscalls called by the task.
    pub syscall_times: [u32; crate::config::MAX_SYSCALL_NUM],
    /// Total running time of the task, in milliseconds.
    pub time: usize,
}

/// The task exits with an exit code: it is marked exited and never runs
/// again; the kernel then schedules some other task.
pub fn sys_exit(_exit_code: i32, task: &mut TaskControlBlock)
    ensures
        final(task).task_status == TaskStatus::Exited,
        final(task).task_cx == old(task).task_cx,
        final(task).syscall_times == old(task).syscall_times,
        final(task).begin_time == old(task).begin_time,
{
    task.task_status = TaskStatus::Exited;
}

/// The current task gives up the processor for other tasks: it goes back to
/// ready and reports success.
pub fn sys_yield(task: &mut TaskControlBlock) -> (r: isize)
    ensures
        r == 0,
        final(task).task_status == TaskStatus::Ready,
        final(task).task_cx == old(task).task_cx,
        final(task).syscall_times == old(task).syscall_times,
        final(task).begin_time == old(task).begin_time,
{
    task.task_status = TaskStatus::Ready;
    0
}

/// Get the time, split into whole seconds and the microseconds below them,
/// from the microsecond reading `us` of the platform timer.
pub fn sys_get_time(ts: &mut TimeVal, us: usize) -> (r: isize)
    ensures
        r == 0,
        final(ts).sec == us / USEC_PER_SEC,
        final(ts).usec == us % USEC_PER_SEC,
{
    ts.sec = us / USEC_PER_SEC;
    ts.usec = us % USEC_PER_SEC;
    0
}

/// Report the current task's status, syscall counts, and running time in
/// milliseconds, computed from the tick reading `now` of the platform timer.
pub fn sys_task_info(ti: &mut TaskInfo, current: &TaskControlBlock, now: usize) -> (r: isize)
    requires
        current.begin_time <= now,
        (now - current.begin_time) * (MSEC_PER_SEC as int) <= usize::MAX,
    ensures
        r == 0,
        final(ti).status == current.task_status,
        final(ti).syscall_times == current.syscall_times,
        final(ti).time == (now - current.begin_time) * (MSEC_PER_SEC as int) / (
        CLOCK_FREQ as int),
{
    ti.status = current.task_status;
    ti.syscall_times = current.syscall_times;
    ti.time = (now - current.begin_time) * MSEC_PER_SEC / CLOCK_FREQ;
    0
}

} // verus!
