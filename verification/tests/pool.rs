//! Sharing work out.

use diskr::pool::{
    par_map, Completion, DrainStep, JobPool, Numbered, TaskGroup, WaitStep, WorkQueue,
};
use std::collections::VecDeque;

#[test]
fn par_map_preserves_order() {
    // The results come back from the threads in any order.
    let mut numbered: Vec<Numbered<usize>> = Vec::new();
    for n in (0..100).rev() {
        numbered.push(Numbered { index: n, result: n * 2 });
    }
    numbered.swap(3, 71);
    numbered.swap(20, 50);
    let doubled = par_map(numbered);
    assert_eq!(doubled, (0..100).map(|n| n * 2).collect::<Vec<_>>());
}

#[test]
fn par_drain_processes_pushed_items() {
    let mut count = 0;
    let mut queue = WorkQueue::new(vec![0u32]);
    loop {
        match queue.next() {
            DrainStep::Work(depth) => {
                count += 1;
                if depth < 3 {
                    queue.push(depth + 1);
                    queue.push(depth + 1);
                }
                queue.done();
            }
            DrainStep::Wait => panic!("nobody else is working"),
            DrainStep::Stop => break,
        }
    }
    // 1 + 2 + 4 + 8 nodes in a depth-3 binary tree.
    assert_eq!(count, 15);
}

#[derive(Debug, Clone, Copy, PartialEq)]
enum Job {
    Outer,
    Nested,
    Finish,
}

#[test]
fn task_group_wait_blocks_until_nested_tasks_finish() {
    let mut count = 0;
    let mut pool: JobPool<Job> = JobPool::new(2);
    let mut group: TaskGroup<Job> = TaskGroup::new();
    for _ in 0..8 {
        group.spawn(&mut pool, None, Job::Outer);
    }
    assert!(matches!(group.arm(), Completion::Pending));
    loop {
        match group.wait(&mut pool) {
            WaitStep::Return => break,
            WaitStep::Run(job) => {
                count += 1;
                if job == Job::Outer {
                    group.spawn(&mut pool, None, Job::Nested);
                }
                group.task_finished();
            }
            WaitStep::Sleep => panic!("tasks are left but none is queued"),
        }
    }
    assert_eq!(count, 16);
}

#[test]
fn who_waits_sleeps_only_while_a_task_runs_elsewhere() {
    let mut pool: JobPool<Job> = JobPool::new(1);
    let mut group: TaskGroup<Job> = TaskGroup::new();
    group.spawn(&mut pool, None, Job::Outer);
    pool.push_jobs(None, VecDeque::from(vec![Job::Finish]));
    assert!(matches!(group.arm(), Completion::Pending));

    // A worker takes the only task; the job of somebody else is helped out with.
    assert_eq!(pool.find_job(Some(0)), Some(Job::Outer));
    assert!(matches!(group.wait(&mut pool), WaitStep::Run(Job::Finish)));
    assert!(matches!(group.wait(&mut pool), WaitStep::Sleep));

    // The task starts another before it ends.
    group.spawn(&mut pool, Some(0), Job::Nested);
    assert!(matches!(group.task_finished(), Completion::Pending));
    assert!(matches!(group.wait(&mut pool), WaitStep::Run(Job::Nested)));
    assert!(matches!(group.wait(&mut pool), WaitStep::Sleep));
    assert!(matches!(group.task_finished(), Completion::Complete(None)));
    assert!(matches!(group.wait(&mut pool), WaitStep::Return));
}

#[test]
fn task_group_on_finish_fires_once_after_all_tasks() {
    let mut count = 0;
    let mut seen: Vec<usize> = Vec::new();
    let mut pool: JobPool<Job> = JobPool::new(1);
    let mut group = TaskGroup::with_finish(Job::Finish);
    for _ in 0..16 {
        group.spawn(&mut pool, None, Job::Outer);
    }
    assert!(matches!(group.arm(), Completion::Pending));
    while pool.find_job(Some(0)).is_some() {
        count += 1;
        if let Completion::Complete(job) = group.task_finished() {
            assert_eq!(job, Some(Job::Finish));
            seen.push(count);
        }
    }
    assert_eq!(seen, vec![16]);
    assert!(matches!(group.wait(&mut pool), WaitStep::Return));
}

#[test]
fn an_empty_group_completes_when_it_is_armed() {
    let mut group = TaskGroup::with_finish(Job::Finish);
    assert!(matches!(group.arm(), Completion::Complete(Some(Job::Finish))));
}

#[test]
fn workers_take_their_newest_and_steal_the_oldest() {
    let mut pool: JobPool<u32> = JobPool::new(3);
    assert_eq!(pool.push_jobs(None, VecDeque::from(vec![1, 2])), 0);
    pool.push_jobs(Some(1), VecDeque::from(vec![10, 11]));
    pool.push_jobs(Some(2), VecDeque::from(vec![20]));
    assert_eq!(pool.find_job(Some(1)), Some(11));
    assert_eq!(pool.find_job(Some(0)), Some(1));
    assert_eq!(pool.find_job(None), Some(2));
    // Worker 2 begins its round at worker 0.
    assert_eq!(pool.find_job(Some(2)), Some(20));
    assert_eq!(pool.find_job(Some(2)), Some(10));
    assert_eq!(pool.find_job(Some(2)), None);
}

#[test]
fn sleeping_workers_are_woken_one_per_job() {
    let mut pool: JobPool<u32> = JobPool::new(2);
    assert_eq!(pool.park(0), None);
    assert_eq!(pool.park(1), None);
    assert_eq!(pool.push_jobs(None, VecDeque::from(vec![1])), 1);
    assert_eq!(pool.push_jobs(None, VecDeque::from(vec![2, 3, 4])), 2);
    pool.wake();
    assert_eq!(pool.push_jobs(None, VecDeque::new()), 0);
    assert_eq!(pool.park(0), Some(1));
    let mut group: TaskGroup<u32> = TaskGroup::new();
    assert_eq!(group.spawn_all(&mut pool, None, VecDeque::from(vec![5, 6])), 1);
}

#[test]
fn draining_waits_for_items_under_way() {
    let mut queue = WorkQueue::new(vec!["only"]);
    assert!(matches!(queue.next(), DrainStep::Work("only")));
    assert!(matches!(queue.next(), DrainStep::Wait));
    assert!(queue.done());
    assert!(matches!(queue.next(), DrainStep::Stop));
}
