use yara_on_map::config::Priorities;
use yara_on_map::types::ScanTask;
use yara_on_map::watcher::build_tasks;

#[test]
fn one_task_per_process() {
    let prio = Priorities { execute: 9, write: 5, read: 1 };
    let tasks = build_tasks(vec![4, 8], &prio);
    assert_eq!(
        tasks,
        vec![
            ScanTask { pid: 4, base: 0, size: 0, priority: 9 },
            ScanTask { pid: 8, base: 0, size: 0, priority: 9 },
        ]
    );
    assert!(build_tasks(Vec::new(), &prio).is_empty());
}
