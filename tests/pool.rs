use oxyweb::thread_pool::{JobQueue, Step};

fn run_id(s: Step<u32>) -> Option<u32> {
    match s {
        Step::Run(j) => Some(j),
        _ => None,
    }
}

#[test]
fn close_with_queued_jobs_runs_them_all_first() {
    let mut q: JobQueue<u32> = JobQueue::new(2);
    for j in 1..=3 {
        assert!(q.submit(j).is_ok());
    }
    q.close();
    assert!(q.submit(9).is_err());
    let mut ran = Vec::new();
    // the first worker starts job 1, the second job 2
    ran.push(run_id(q.take()).unwrap());
    ran.push(run_id(q.take()).unwrap());
    assert!(!q.has_idle_worker());
    q.finish();
    ran.push(run_id(q.take()).unwrap());
    q.finish();
    q.finish();
    assert!(!q.is_busy());
    assert!(matches!(q.take(), Step::Exit));
    assert!(matches!(q.take(), Step::Exit));
    assert!(q.all_exited());
    assert_eq!(ran, vec![1, 2, 3]);
}

#[test]
fn full_pool_holds_the_next_job_until_a_worker_frees_up() {
    let n = 3;
    let mut q: JobQueue<u32> = JobQueue::new(n);
    for j in 0..=(n as u32) {
        q.submit(j).unwrap();
    }
    for j in 0..(n as u32) {
        assert!(q.has_idle_worker());
        assert_eq!(run_id(q.take()), Some(j));
    }
    assert!(!q.has_idle_worker());
    q.finish();
    assert!(q.has_idle_worker());
    assert_eq!(run_id(q.take()), Some(n as u32));
}

#[test]
fn open_empty_queue_says_wait() {
    let mut q: JobQueue<u32> = JobQueue::new(1);
    assert!(matches!(q.take(), Step::Wait));
    assert!(!q.all_exited());
    q.submit(5).unwrap();
    assert_eq!(run_id(q.take()), Some(5));
}

#[test]
fn refused_job_is_handed_back() {
    let mut q: JobQueue<u32> = JobQueue::new(1);
    q.close();
    assert_eq!(q.submit(7), Err(7));
}
