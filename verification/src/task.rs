//! Types related to task management.

use vstd::prelude::*;

use crate::config::MAX_SYSCALL_NUM;

verus! {

/// The status of a task in its life cycle.
#[derive(Copy, Clone, PartialEq, Eq)]
pub enum TaskStatus {
    /// uninitialized
    UnInit,
    /// ready to run
    Ready,
    /// running
    Running,
    /// exited
    Exited,
}

/// The registers a task's execution is suspended and resumed with.
#[derive(Copy, Clone)]
pub struct TaskContext {
    /// return address
    pub ra: usize,
    /// stack pointer
    pub sp: usize,
    /// callee-saved registers
    pub s: [usize; 12],
}

/// The task control block of a task.
#[derive(Copy, Clone)]
pub struct TaskControlBlock {
    /// The task status in its life cycle.
    pub task_status: TaskStatus,
    /// The task context.
    pub task_cx: TaskContext,
    /// The record of syscall times.
    pub syscall_times: [u32; MAX_SYSCALL_NUM],
    /// The begin time of the task, in ticks.
    pub begin_time: usize,
}

} // verus!
