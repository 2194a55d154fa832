//! Turning the processes to watch into scan tasks.

use vstd::prelude::*;
use crate::config::Priorities;
use crate::types::ScanTask;

verus! {

/// One task per process of `pids`, in order, each with the execute
/// priority; base and size stay zero at the task level. The caller lists
/// the running processes when no process was named.
pub fn build_tasks(pids: Vec<u32>, prio: &Priorities) -> (tasks: Vec<ScanTask>)
    ensures
        tasks.len() == pids.len(),
        forall|i: int|
            0 <= i < pids.len() ==> #[trigger] tasks[i] == (ScanTask {
                pid: pids[i],
                base: 0,
                size: 0,
                priority: prio.execute,
            }),
{
    let mut tasks: Vec<ScanTask> = Vec::new();
    let mut i: usize = 0;
    while i < pids.len()
        invariant
            i <= pids.len(),
            tasks.len() == i,
            forall|q: int|
                0 <= q < i ==> #[trigger] tasks[q] == (ScanTask {
                    pid: pids[q],
                    base: 0,
                    size: 0,
                    priority: prio.execute,
                }),
        decreases pids.len() - i,
    {
        tasks.push(ScanTask { pid: pids[i], base: 0, size: 0, priority: prio.execute });
        i = i + 1;
    }
    tasks
}

} // verus!
