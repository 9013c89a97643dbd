//! Tasks.

use crate::kernel::sched::runqueue::Scheduler;
use std::collections::BTreeMap;
use vstd::prelude::*;

verus! {

/// A task: a process with its threads.
pub struct Task {
    /// Its number.
    pub pid: u32,
    /// Its threads, by their places in the table.
    pub threads: Vec<usize>,
}

/// The number after `pid`.
pub open spec fn pid_after(pid: u32) -> u32 {
    if pid == u32::MAX {
        0
    } else {
        (pid + 1) as u32
    }
}

impl Task {
    /// A task without threads, with the next number.
    #[must_use]
    pub fn new(next_pid: &mut u32) -> (r: Self)
        ensures
            r.pid == *old(next_pid),
            r.threads@ == Seq::<usize>::empty(),
            *final(next_pid) == pid_after(*old(next_pid)),
    {
        let pid: u32 = *next_pid;
        *next_pid = if pid == u32::MAX {
            0
        } else {
            pid + 1
        };
        Task { pid, threads: Vec::new() }
    }
}

/// The tasks by their numbers, once the table is set up.
pub struct TaskTable {
    tasks: Option<BTreeMap<u32, Task>>,
}

impl View for TaskTable {
    type V = Option<Map<u32, Task>>;

    closed spec fn view(&self) -> Option<Map<u32, Task>> {
        match self.tasks {
            Some(t) => Some(t@),
            None => None,
        }
    }
}

impl TaskTable {
    /// A table that is not set up.
    pub fn new() -> (r: Self)
        ensures
            r@ is None,
    {
        TaskTable { tasks: None }
    }
}

/// Sets the table up, unless that has been done.
pub fn init_task_table(table: &mut TaskTable)
    ensures
        final(table)@ == match old(table)@ {
            Some(t) => Some(t),
            None => Some(Map::empty()),
        },
{
    if table.tasks.is_none() {
        table.tasks = Some(BTreeMap::new());
    }
}

/// Puts a task into the table under its number. Without a table it is dropped.
pub fn register_task(table: &mut TaskTable, task: Task)
    ensures
        final(table)@ == match old(table)@ {
            Some(t) => Some(t.insert(task.pid, task)),
            None => None,
        },
{
    broadcast use vstd::laws_cmp::group_laws_cmp;

    match &mut table.tasks {
        Some(t) => {
            t.insert(task.pid, task);
        },
        None => {},
    }
}

/// The number of the thread that runs, 0 without one.
pub fn current_pid(s: &Scheduler) -> (r: u32)
    requires
        s@.wf(),
    ensures
        r == match s@.current {
            Some(c) => s@.threads[c as int].tid,
            None => 0,
        },
{
    match s.current {
        Some(c) => s.threads[c].tid,
        None => 0,
    }
}

/// The number after `n` tasks have been made.
pub open spec fn pid_after_n(pid: u32, n: nat) -> u32
    decreases n,
{
    if n == 0 {
        pid
    } else {
        pid_after(pid_after_n(pid, (n - 1) as nat))
    }
}

/// Of fewer tasks than there are numbers no two get the same.
pub proof fn law_pids_differ(pid: u32, a: nat, b: nat)
    requires
        a < b < a + 0x1_0000_0000,
    ensures
        pid_after_n(pid, a) != pid_after_n(pid, b),
{
    lemma_pid(pid, a);
    lemma_pid(pid, b);
}

proof fn lemma_pid(pid: u32, n: nat)
    ensures
        pid_after_n(pid, n) == (pid + n) % 0x1_0000_0000,
    decreases n,
{
    if n > 0 {
        lemma_pid(pid, (n - 1) as nat);
    }
}

} // verus!
