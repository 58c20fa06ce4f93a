use forecast_server::queue::{JobQueue, Take};

fn take_job(q: &mut JobQueue<u32>) -> Option<u32> {
    match q.take() {
        Take::Job(j) => Some(j),
        _ => None,
    }
}

#[test]
fn new_queue_is_open_and_empty() {
    let mut q: JobQueue<u32> = JobQueue::new();
    assert!(!q.is_closed());
    assert_eq!(q.len(), 0);
    assert!(matches!(q.take(), Take::Wait));
}

#[test]
fn jobs_come_out_in_submission_order() {
    let mut q = JobQueue::new();
    for j in 0..5u32 {
        assert!(q.submit(j).is_ok());
    }
    assert_eq!(q.len(), 5);
    for j in 0..5u32 {
        assert_eq!(take_job(&mut q), Some(j));
    }
    assert!(matches!(q.take(), Take::Wait));
}

#[test]
fn every_job_taken_exactly_once_with_interleaving() {
    // Submissions and takes interleave as they would with several workers.
    let mut q = JobQueue::new();
    let mut seen = vec![0u32; 12];
    let mut next = 0u32;
    for round in 0..6 {
        for _ in 0..(round % 3 + 1) {
            if next < 12 {
                assert!(q.submit(next).is_ok());
                next += 1;
            }
        }
        if let Some(j) = take_job(&mut q) {
            seen[j as usize] += 1;
        }
    }
    while next < 12 {
        assert!(q.submit(next).is_ok());
        next += 1;
    }
    q.close();
    loop {
        match q.take() {
            Take::Job(j) => seen[j as usize] += 1,
            Take::Closed => break,
            Take::Wait => panic!("a closed queue never asks to wait"),
        }
    }
    assert!(seen.iter().all(|&n| n == 1));
}

#[test]
fn close_drains_before_reporting_closed() {
    let mut q = JobQueue::new();
    assert!(q.submit(7u32).is_ok());
    assert!(q.submit(8u32).is_ok());
    q.close();
    assert!(q.is_closed());
    assert_eq!(take_job(&mut q), Some(7));
    assert_eq!(take_job(&mut q), Some(8));
    assert!(matches!(q.take(), Take::Closed));
    assert!(matches!(q.take(), Take::Closed));
}

#[test]
fn closed_queue_hands_job_back() {
    let mut q = JobQueue::new();
    q.close();
    assert_eq!(q.submit(3u32), Err(3));
    assert_eq!(q.len(), 0);
}
