use jitstreamer_eb::heartbeat::{HeartbeatManager, SendRequest};

#[test]
fn storing_a_second_handle_cancels_the_first() {
    let mut m = HeartbeatManager::new();
    let h1 = m.issue_handle();
    assert!(m.apply(SendRequest::Store(("device-1".to_string(), h1))).is_none());

    let h2 = m.issue_handle();
    let victim = m.apply(SendRequest::Store(("device-1".to_string(), h2)));
    assert_eq!(victim, Some(h1));
}

#[test]
fn kill_cancels_and_removes_the_current_handle() {
    let mut m = HeartbeatManager::new();
    let h1 = m.issue_handle();
    m.apply(SendRequest::Store(("device-1".to_string(), h1)));

    let victim = m.apply(SendRequest::Kill("device-1".to_string()));
    assert_eq!(victim, Some(h1));

    // A second kill finds nothing: the entry is gone.
    assert!(m.apply(SendRequest::Kill("device-1".to_string())).is_none());
}

#[test]
fn kill_of_unknown_device_is_a_no_op() {
    let mut m = HeartbeatManager::new();
    assert!(m.apply(SendRequest::Kill("device-1".to_string())).is_none());
}

#[test]
fn devices_keep_independent_handles() {
    let mut m = HeartbeatManager::new();
    let h1 = m.issue_handle();
    let h2 = m.issue_handle();
    assert_ne!(h1, h2);
    m.apply(SendRequest::Store(("device-1".to_string(), h1)));
    m.apply(SendRequest::Store(("device-2".to_string(), h2)));

    // Replacing device-1's loop leaves device-2's untouched.
    let h3 = m.issue_handle();
    let victim = m.apply(SendRequest::Store(("device-1".to_string(), h3)));
    assert_eq!(victim, Some(h1));
    assert_eq!(m.apply(SendRequest::Kill("device-2".to_string())), Some(h2));
    assert_eq!(m.apply(SendRequest::Kill("device-1".to_string())), Some(h3));
}
