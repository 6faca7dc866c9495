use worker_pool::coordinator::{Action, Coordinator};

fn trace(workers: usize, jobs: usize) -> Vec<Action> {
    let mut c = Coordinator::new(workers, jobs);
    let mut out = Vec::new();
    loop {
        let a = c.next_action();
        if matches!(a, Action::Finished) {
            break;
        }
        out.push(a);
        c.done();
    }
    out
}

#[test]
fn coordinator_order_two_workers_four_jobs() {
    let t = trace(2, 4);
    assert_eq!(t.len(), 12);
    for i in 0..4 {
        assert!(matches!(t[i], Action::SendJob(j) if j == i));
    }
    for i in 4..8 {
        assert!(matches!(t[i], Action::Receive));
    }
    assert!(matches!(t[8], Action::SendStop));
    assert!(matches!(t[9], Action::SendStop));
    assert!(matches!(t[10], Action::Join(0)));
    assert!(matches!(t[11], Action::Join(1)));
}

#[test]
fn coordinator_without_jobs_goes_to_shutdown() {
    let t = trace(3, 0);
    assert_eq!(t.len(), 6);
    assert!(matches!(t[0], Action::SendStop));
    assert!(matches!(t[2], Action::SendStop));
    assert!(matches!(t[3], Action::Join(0)));
    assert!(matches!(t[5], Action::Join(2)));
}

#[test]
fn coordinator_counts() {
    let t = trace(5, 7);
    assert_eq!(t.len(), 24);
    assert_eq!(t.iter().filter(|a| matches!(a, Action::SendStop)).count(), 5);
    assert_eq!(t.iter().filter(|a| matches!(a, Action::Receive)).count(), 7);
}
