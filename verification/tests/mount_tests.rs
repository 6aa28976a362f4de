use jitstreamer_eb::mount::{
    contains_developer_tag, image_list_has_developer, stream_idle_message, stream_message,
    ImageCheck, MountBroker, MountProgress, MountSlot,
};

fn dev(name: &str) -> String {
    name.to_string()
}

#[test]
fn image_already_mounted_leaves_no_cache_entry() {
    let mut b = MountBroker::new();
    assert!(b.poll(&dev("D")).is_none());

    let r = b.resolve_absent(dev("D"), ImageCheck::DeveloperPresent);
    assert!(r.ok);
    assert!(!r.mounting);
    assert!(r.error.is_none());

    // No entry was created: the next poll still finds nothing cached.
    assert!(b.poll(&dev("D")).is_none());
}

#[test]
fn missing_image_spawns_one_worker_and_reports_mounting() {
    let mut b = MountBroker::new();
    assert!(b.poll(&dev("D")).is_none());

    let r = b.resolve_absent(dev("D"), ImageCheck::DeveloperAbsent);
    assert!(r.ok);
    assert!(r.mounting);

    // A racing second check now observes the cached entry instead of
    // resolving the absent case again, so it cannot spawn a second worker.
    let second = b.poll(&dev("D")).expect("the entry must be cached");
    assert!(second.ok);
    assert!(second.mounting);
    assert!(second.error.is_none());
}

#[test]
fn failed_check_reports_message_and_caches_nothing() {
    let mut b = MountBroker::new();
    let r = b.resolve_absent(dev("D"), ImageCheck::Failed("device unreachable".to_string()));
    assert!(!r.ok);
    assert!(!r.mounting);
    assert_eq!(r.error.as_deref(), Some("device unreachable"));
    assert!(b.poll(&dev("D")).is_none());
}

#[test]
fn progress_completes_and_is_drained_by_one_poll() {
    let mut b = MountBroker::new();
    b.resolve_absent(dev("D"), ImageCheck::DeveloperAbsent);
    b.publish_progress(&dev("D"), 10, 2048);
    b.publish_progress(&dev("D"), 512, 2048);
    b.publish_complete(&dev("D"));

    let done = b.poll(&dev("D")).expect("the terminal entry must be seen");
    assert!(done.ok);
    assert!(!done.mounting);
    assert!(done.error.is_none());

    // The first poll that saw completion drained the entry.
    assert!(b.poll(&dev("D")).is_none());
}

#[test]
fn worker_failure_is_reported_once_then_a_fresh_mount_can_start() {
    let mut b = MountBroker::new();
    b.resolve_absent(dev("D"), ImageCheck::DeveloperAbsent);
    b.publish_progress(&dev("D"), 10, 2048);
    b.publish_failure(&dev("D"), "transfer interrupted".to_string());

    let r = b.poll(&dev("D")).expect("the failure must be seen");
    assert!(!r.ok);
    assert!(!r.mounting);
    assert_eq!(r.error.as_deref(), Some("transfer interrupted"));

    // The entry is drained, and the next check starts a fresh mount.
    assert!(b.poll(&dev("D")).is_none());
    let again = b.resolve_absent(dev("D"), ImageCheck::DeveloperAbsent);
    assert!(again.ok);
    assert!(again.mounting);
}

#[test]
fn stream_messages_follow_the_slot() {
    let working = MountSlot::Progress(MountProgress {
        bytes_done: 256,
        bytes_total: 1024,
        complete: false,
    });
    let m = stream_message(&working);
    assert!(m.ok);
    assert_eq!(m.bytes_done, 256);
    assert_eq!(m.bytes_total, 1024);
    assert!(!m.done);
    assert!(m.error.is_none());

    let finished = MountSlot::Progress(MountProgress {
        bytes_done: 1024,
        bytes_total: 1024,
        complete: true,
    });
    assert!(stream_message(&finished).done);

    let failed = MountSlot::Failed("went wrong".to_string());
    let fm = stream_message(&failed);
    assert!(!fm.ok);
    assert!(!fm.done);
    assert_eq!(fm.error.as_deref(), Some("went wrong"));

    let idle = stream_idle_message();
    assert!(idle.ok);
    assert!(!idle.done);
    assert!(idle.error.is_none());
}

#[test]
fn stream_observers_see_the_cached_slot() {
    let mut b = MountBroker::new();
    assert!(b.current_slot(&dev("D")).is_none());
    b.resolve_absent(dev("D"), ImageCheck::DeveloperAbsent);
    b.publish_progress(&dev("D"), 7, 100);
    match b.current_slot(&dev("D")) {
        Some(MountSlot::Progress(p)) => {
            assert_eq!(p.bytes_done, 7);
            assert_eq!(p.bytes_total, 100);
            assert!(!p.complete);
        }
        _ => panic!("expected in-flight progress"),
    }
}

#[test]
fn developer_tag_is_found_in_serialized_descriptions() {
    assert!(contains_developer_tag(&b"<key>Developer</key>".to_vec()));
    assert!(contains_developer_tag(&b"Developer".to_vec()));
    assert!(!contains_developer_tag(&b"Develope".to_vec()));
    assert!(!contains_developer_tag(&b"developer".to_vec()));
    assert!(!contains_developer_tag(&b"".to_vec()));
    assert!(!contains_developer_tag(&b"DevelopeRDevel".to_vec()));
    assert!(contains_developer_tag(&b"xxDevelopeDeveloperxx".to_vec()));
}

#[test]
fn image_list_detects_a_developer_image() {
    let images = vec![
        b"<dict>ordinary</dict>".to_vec(),
        b"<dict>Developer image</dict>".to_vec(),
    ];
    assert!(image_list_has_developer(&images));

    let none = vec![b"<dict>ordinary</dict>".to_vec()];
    assert!(!image_list_has_developer(&none));
    assert!(!image_list_has_developer(&Vec::new()));
}
