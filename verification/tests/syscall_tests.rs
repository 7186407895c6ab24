use easy_fs::config::{CLOCK_FREQ, MAX_SYSCALL_NUM, MSEC_PER_SEC};
use easy_fs::syscall::{sys_exit, sys_get_time, sys_task_info, sys_yield, TaskInfo, TimeVal};
use easy_fs::task::{TaskContext, TaskControlBlock, TaskStatus};

fn running_task(begin_time: usize) -> TaskControlBlock {
    TaskControlBlock {
        task_status: TaskStatus::Running,
        task_cx: TaskContext { ra: 0, sp: 0, s: [0; 12] },
        syscall_times: [0; MAX_SYSCALL_NUM],
        begin_time,
    }
}

#[test]
fn yield_marks_ready() {
    let mut task = running_task(0);
    let r = sys_yield(&mut task);
    assert_eq!(r, 0);
    assert!(task.task_status == TaskStatus::Ready);
    assert_eq!(task.begin_time, 0);
}

#[test]
fn exit_marks_exited() {
    let mut task = running_task(17);
    sys_exit(42, &mut task);
    assert!(task.task_status == TaskStatus::Exited);
    assert_eq!(task.begin_time, 17);
}

#[test]
fn get_time_splits_microseconds() {
    let mut ts = TimeVal { sec: 0, usec: 0 };
    let r = sys_get_time(&mut ts, 2_500_000);
    assert_eq!(r, 0);
    assert_eq!(ts.sec, 2);
    assert_eq!(ts.usec, 500_000);
}

#[test]
fn task_info_reports_status_and_time() {
    let mut task = running_task(CLOCK_FREQ);
    task.syscall_times[3] = 9;
    let mut ti = TaskInfo {
        status: TaskStatus::UnInit,
        syscall_times: [0; MAX_SYSCALL_NUM],
        time: 0,
    };
    // Three seconds of ticks after begin_time: 3000 milliseconds.
    let now = CLOCK_FREQ + 3 * CLOCK_FREQ;
    let r = sys_task_info(&mut ti, &task, now);
    assert_eq!(r, 0);
    assert!(ti.status == TaskStatus::Running);
    assert_eq!(ti.syscall_times[3], 9);
    assert_eq!(ti.time, 3 * MSEC_PER_SEC);
}
