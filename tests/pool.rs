use worker_pool::pool::{pool_size, Pool};
use worker_pool::text::{completion_text, decimal_string, job_data};
use worker_pool::worker::{Completion, Job, Message, Worker};

fn job_list(n: usize) -> Vec<String> {
    (0..n).map(job_data).collect()
}

fn sorted_data(results: &[Completion]) -> Vec<String> {
    let mut v: Vec<String> = results.iter().map(|c| c.data.clone()).collect();
    v.sort();
    v
}

#[test]
fn decimal_writes_digits() {
    assert_eq!(decimal_string(0), "0");
    assert_eq!(decimal_string(7), "7");
    assert_eq!(decimal_string(10), "10");
    assert_eq!(decimal_string(1234509), "1234509");
    assert_eq!(decimal_string(usize::MAX), usize::MAX.to_string());
}

#[test]
fn job_payload_format() {
    assert_eq!(job_data(0), "Job #0 data");
    assert_eq!(job_data(3), "Job #3 data");
    assert_eq!(job_data(19), "Job #19 data");
}

#[test]
fn completion_record_format() {
    assert_eq!(
        completion_text(1, "Job #2 data"),
        "Worker 1 completed job with data 'Job #2 data'"
    );
    let c = Completion { worker: 12, data: String::from("x") };
    assert_eq!(c.text(), "Worker 12 completed job with data 'x'");
}

#[test]
fn worker_processes_job_then_stops() {
    let mut w = Worker::new(5);
    assert!(w.is_idle());
    assert!(w.is_running());
    w.receive(Message::Work(Job::new(String::from("Job #0 data"))));
    assert!(w.is_busy());
    let c = w.finish();
    assert_eq!(c.worker, 5);
    assert_eq!(c.data, "Job #0 data");
    assert!(w.is_idle());
    w.receive(Message::Stop);
    assert!(!w.is_running());
    assert!(!w.is_busy());
}

#[test]
fn core_count_is_positive() {
    let c = pool_size();
    assert!(c >= 1);
    assert_eq!(Pool::with_physical_cores().size(), c);
}

#[test]
fn two_workers_four_jobs() {
    let jobs = job_list(4);
    let pool = Pool::run(2, &jobs, &vec![1, 0, 0, 1, 1]);
    assert_eq!(pool.size(), 2);
    assert_eq!(pool.queue_len(), 0);
    assert!(pool.is_terminated(0));
    assert!(pool.is_terminated(1));
    let results = pool.into_results();
    assert_eq!(results.len(), 4);
    for r in &results {
        assert!(r.worker < 2);
    }
    assert_eq!(sorted_data(&results), jobs);
    for i in 0..4 {
        let needle = format!("Job #{} data", i);
        let hits = results.iter().filter(|r| r.text().contains(&needle)).count();
        assert_eq!(hits, 1);
    }
}

#[test]
fn no_jobs_shuts_down_cleanly() {
    let pool = Pool::run(3, &Vec::new(), &Vec::new());
    assert_eq!(pool.result_count(), 0);
    assert_eq!(pool.queue_len(), 0);
    for w in 0..3 {
        assert!(pool.is_terminated(w));
    }
}

#[test]
fn single_worker_keeps_dispatch_order() {
    let jobs = job_list(6);
    let pool = Pool::run(1, &jobs, &vec![0, 4, 2]);
    assert!(pool.is_terminated(0));
    let results = pool.into_results();
    let data: Vec<String> = results.iter().map(|c| c.data.clone()).collect();
    assert_eq!(data, jobs);
    assert!(results.iter().all(|c| c.worker == 0));
}

#[test]
fn every_job_has_one_result() {
    for cores in 1..6 {
        for n in [0usize, 1, 5, 17] {
            let jobs = job_list(n);
            let picks: Vec<usize> = (0..7).map(|i| (i * 3 + cores) % 5).collect();
            let pool = Pool::run(cores, &jobs, &picks);
            for w in 0..cores {
                assert!(pool.is_terminated(w));
            }
            let results = pool.into_results();
            assert_eq!(results.len(), n);
            let mut expected = jobs.clone();
            expected.sort();
            assert_eq!(sorted_data(&results), expected);
        }
    }
}

#[test]
fn equal_payloads_each_delivered_once() {
    let jobs = vec![String::from("same"), String::from("same"), String::from("other")];
    let results = Pool::run(2, &jobs, &vec![0, 1]).into_results();
    assert_eq!(results.iter().filter(|c| c.data == "same").count(), 2);
    assert_eq!(results.iter().filter(|c| c.data == "other").count(), 1);
}

#[test]
fn results_can_arrive_out_of_order() {
    // worker 0 takes the first job, worker 1 the second and publishes first
    let mut pool = Pool::new(2);
    pool.dispatch(Job::new(job_data(0)));
    pool.dispatch(Job::new(job_data(1)));
    pool.take(0);
    pool.take(1);
    pool.finish(1);
    pool.finish(0);
    let r = pool.results();
    assert_eq!(r[0].data, "Job #1 data");
    assert_eq!(r[0].worker, 1);
    assert_eq!(r[1].data, "Job #0 data");
    assert_eq!(r[1].worker, 0);
}

#[test]
fn step_moves_until_idle() {
    let mut pool = Pool::new(2);
    assert!(!pool.step(0));
    pool.dispatch(Job::new(job_data(0)));
    assert!(pool.step(1));
    assert_eq!(pool.queue_len(), 0);
    assert!(pool.step(0));
    assert_eq!(pool.result_count(), 1);
    assert_eq!(pool.results()[0].worker, 1);
    assert!(!pool.step(0));
    pool.shut_down();
    assert_eq!(pool.queue_len(), 2);
    assert!(pool.step(0));
    assert!(pool.step(0));
    assert!(!pool.step(0));
    assert!(pool.is_terminated(0));
    assert!(pool.is_terminated(1));
}
