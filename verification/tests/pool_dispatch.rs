use std::sync::mpsc::channel;

use threadpool::ThreadPool;
use tinyserver::handler::{plan_request, render_response};
use tinyserver::pool::PoolModel;
use tinyserver::routes::register_routes;

#[test]
fn every_submitted_job_completes_exactly_once() {
    // More jobs than workers: every job moves through the pool exactly once.
    let mut pool = PoolModel::new(2);
    for job in 1u64..=5 {
        pool.submit(job);
    }
    let a = pool.take().unwrap();
    let b = pool.take().unwrap();
    pool.finish(a);
    while let Some(job) = pool.take() {
        pool.finish(job);
    }
    pool.finish(b);
    assert!(pool.pending.is_empty());
    assert!(pool.running.is_empty());
    let mut done = pool.completed.clone();
    done.sort();
    assert_eq!(done, vec![1, 2, 3, 4, 5]);
}

#[test]
fn jobs_are_taken_in_submission_order() {
    let mut pool = PoolModel::new(1);
    pool.submit(10);
    pool.submit(20);
    pool.submit(30);
    assert_eq!(pool.take(), Some(10));
    pool.finish(10);
    assert_eq!(pool.take(), Some(20));
    pool.finish(20);
    assert_eq!(pool.take(), Some(30));
    pool.finish(30);
    assert_eq!(pool.completed, vec![10, 20, 30]);
}

#[test]
fn single_worker_handles_two_connections_sequentially() {
    // A pool of size one: two connections are processed one after the other,
    // and neither response leaks into the other's output.
    let routes = register_routes();
    let mut pool = PoolModel::new(1);
    pool.submit(1);
    pool.submit(2);

    let first = pool.take().unwrap();
    assert_eq!(first, 1);
    // Size one: no second job can be taken while the first runs.
    assert_eq!(pool.running.len(), pool.size);
    let plan = plan_request(b"GET / HTTP/1.1", &routes).unwrap();
    let out_one = render_response(plan, Some(b"one".to_vec()));
    pool.finish(first);

    let second = pool.take().unwrap();
    assert_eq!(second, 2);
    let plan = plan_request(b"GET /missing HTTP/1.1", &routes).unwrap();
    let out_two = render_response(plan, Some(b"two".to_vec()));
    pool.finish(second);

    assert_eq!(out_one, b"HTTP/1.1 200 OK\r\nContent-Length: 3\r\n\r\none".to_vec());
    assert_eq!(out_two, b"HTTP/1.1 404 NOT FOUND\r\nContent-Length: 3\r\n\r\ntwo".to_vec());
    assert_eq!(pool.completed, vec![1, 2]);
}

#[test]
fn worker_threads_complete_all_jobs() {
    // The same dispatch discipline on real worker threads: four jobs on two
    // workers all come back, each exactly once, each with its own response.
    let workers = ThreadPool::new(2);
    let (tx, rx) = channel();
    for job in 0u64..4 {
        let tx = tx.clone();
        let routes = register_routes();
        workers.execute(move || {
            let line = if job % 2 == 0 { b"GET / HTTP/1.1".to_vec() } else { b"GET /download HTTP/1.1".to_vec() };
            let plan = plan_request(&line, &routes).unwrap();
            let body = job.to_string().into_bytes();
            let out = render_response(plan, Some(body));
            tx.send((job, out)).unwrap();
        });
    }
    drop(tx);
    workers.join();
    let mut seen: Vec<(u64, Vec<u8>)> = rx.iter().collect();
    seen.sort();
    assert_eq!(seen.len(), 4);
    for (job, out) in &seen {
        let expected = if job % 2 == 0 {
            format!("HTTP/1.1 200 OK\r\nContent-Length: 1\r\n\r\n{}", job).into_bytes()
        } else {
            format!(
                "HTTP/1.1 200 OK\r\nConnection: keep-alive\r\nContent-Length: 1\r\nContent-Type: audio/mpeg\r\nContent-Disposition: attachment; filename*=test.mp3\r\n\r\n{}",
                job
            )
            .into_bytes()
        };
        assert_eq!(out, &expected);
    }
    assert_eq!(seen.iter().map(|(j, _)| *j).collect::<Vec<_>>(), vec![0, 1, 2, 3]);
}
