use jitstreamer_eb::queue::{LaunchQueue, LaunchQueueInfo};

fn dev(name: &str) -> String {
    name.to_string()
}

#[test]
fn empty_queue_reports_not_in_queue() {
    let mut q = LaunchQueue::new();
    assert!(matches!(q.status(&dev("A")), LaunchQueueInfo::NotInQueue));
    assert_eq!(q.len(), 0);
}

#[test]
fn enqueue_then_status_round_trip() {
    let mut q = LaunchQueue::new();
    let pos = q.enqueue(dev("A"), dev("ip-a"), dev("com.example.app"));
    assert_eq!(pos, 0);
    assert!(matches!(q.status(&dev("A")), LaunchQueueInfo::Position(0)));

    let pos_b = q.enqueue(dev("B"), dev("ip-b"), dev("com.example.app"));
    assert_eq!(pos_b, 1);
    assert!(matches!(q.status(&dev("B")), LaunchQueueInfo::Position(1)));
}

#[test]
fn positions_compact_as_earlier_rows_resolve() {
    let mut q = LaunchQueue::new();
    q.enqueue(dev("A"), dev("ip-a"), dev("app.a"));
    q.enqueue(dev("B"), dev("ip-b"), dev("app.b"));
    q.enqueue(dev("C"), dev("ip-c"), dev("app.c"));
    assert!(matches!(q.status(&dev("B")), LaunchQueueInfo::Position(1)));

    assert!(q.worker_complete(&dev("A")));
    assert!(matches!(q.status(&dev("B")), LaunchQueueInfo::Position(0)));
    assert!(matches!(q.status(&dev("C")), LaunchQueueInfo::Position(1)));
}

#[test]
fn claimed_row_reports_position_zero() {
    let mut q = LaunchQueue::new();
    q.enqueue(dev("A"), dev("ip-a"), dev("app.a"));
    q.enqueue(dev("B"), dev("ip-b"), dev("app.b"));
    q.enqueue(dev("C"), dev("ip-c"), dev("app.c"));

    assert!(q.worker_claim(&dev("A")));
    assert!(matches!(q.status(&dev("A")), LaunchQueueInfo::Position(0)));
    // A is no longer waiting, so only B stands ahead of C.
    assert!(matches!(q.status(&dev("C")), LaunchQueueInfo::Position(1)));
}

#[test]
fn error_row_is_delivered_exactly_once() {
    let mut q = LaunchQueue::new();
    q.enqueue(dev("A"), dev("ip-a"), dev("app.a"));
    assert!(q.worker_fail(&dev("A"), "launch failed on device".to_string()));

    match q.status(&dev("A")) {
        LaunchQueueInfo::Error(m) => assert_eq!(m, "launch failed on device"),
        _ => panic!("expected the worker's failure message"),
    }
    assert!(matches!(q.status(&dev("A")), LaunchQueueInfo::NotInQueue));
}

#[test]
fn failed_row_keeps_place_until_read() {
    let mut q = LaunchQueue::new();
    q.enqueue(dev("A"), dev("ip-a"), dev("app.a"));
    q.enqueue(dev("B"), dev("ip-b"), dev("app.b"));
    assert!(q.worker_fail(&dev("A"), "boom".to_string()));

    // A stopped waiting, so B moves to the front even before A's error is read.
    assert!(matches!(q.status(&dev("B")), LaunchQueueInfo::Position(0)));
    assert!(matches!(q.status(&dev("A")), LaunchQueueInfo::Error(_)));
    assert_eq!(q.len(), 1);
}

#[test]
fn drain_all_empties_the_queue() {
    let mut q = LaunchQueue::new();
    q.enqueue(dev("A"), dev("ip-a"), dev("app.a"));
    q.enqueue(dev("B"), dev("ip-b"), dev("app.b"));
    q.drain_all();
    assert_eq!(q.len(), 0);
    assert!(matches!(q.status(&dev("A")), LaunchQueueInfo::NotInQueue));
    assert!(matches!(q.status(&dev("B")), LaunchQueueInfo::NotInQueue));
}

#[test]
fn workers_touch_nothing_for_unknown_devices() {
    let mut q = LaunchQueue::new();
    q.enqueue(dev("A"), dev("ip-a"), dev("app.a"));
    assert!(!q.worker_complete(&dev("Z")));
    assert!(!q.worker_fail(&dev("Z"), "nope".to_string()));
    assert!(!q.worker_claim(&dev("Z")));
    assert!(matches!(q.status(&dev("A")), LaunchQueueInfo::Position(0)));
}
