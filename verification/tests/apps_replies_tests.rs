use jitstreamer_eb::apps::{select_debuggable_apps, AppInfo};
use jitstreamer_eb::queue::LaunchQueueInfo;
use jitstreamer_eb::replies::{launch_check_reply, launch_enqueue_reply, status_reply, LaunchStep};

fn app(bundle: &str, name: Option<&str>, allow: bool) -> AppInfo {
    AppInfo {
        bundle_id: bundle.to_string(),
        name: name.map(|n| n.to_string()),
        get_task_allow: allow,
    }
}

#[test]
fn only_debuggable_apps_are_listed() {
    let apps = vec![
        app("com.example.game", Some("Game"), true),
        app("com.example.bank", Some("Bank"), false),
    ];
    let listed = select_debuggable_apps(&apps);
    assert_eq!(listed.len(), 1);
    assert_eq!(
        listed.get(&"Game".to_string()).map(|s| s.as_str()),
        Some("com.example.game")
    );
    assert!(listed.get(&"Bank".to_string()).is_none());
}

#[test]
fn nameless_apps_are_listed_under_their_bundle_id() {
    let apps = vec![app("com.example.tool", None, true)];
    let listed = select_debuggable_apps(&apps);
    assert_eq!(
        listed.get(&"com.example.tool".to_string()).map(|s| s.as_str()),
        Some("com.example.tool")
    );
}

#[test]
fn a_later_app_takes_a_shared_name_over() {
    let apps = vec![
        app("com.example.one", Some("Twin"), true),
        app("com.example.two", Some("Twin"), true),
    ];
    let listed = select_debuggable_apps(&apps);
    assert_eq!(listed.len(), 1);
    assert_eq!(
        listed.get(&"Twin".to_string()).map(|s| s.as_str()),
        Some("com.example.two")
    );
}

#[test]
fn status_replies_follow_the_queue_answer() {
    let r = status_reply(LaunchQueueInfo::Position(3));
    assert!(r.ok && !r.done && r.position == 3 && r.error.is_none());

    let r = status_reply(LaunchQueueInfo::NotInQueue);
    assert!(r.ok && r.done && r.position == 0 && r.error.is_none());

    let r = status_reply(LaunchQueueInfo::Error("launch failed".to_string()));
    assert!(!r.ok && r.done);
    assert_eq!(r.error.as_deref(), Some("launch failed"));

    let r = status_reply(LaunchQueueInfo::ServerError);
    assert!(!r.ok && r.done);
    assert_eq!(r.error.as_deref(), Some("server error"));
}

#[test]
fn launch_requests_enqueue_only_when_not_queued() {
    match launch_check_reply(LaunchQueueInfo::Position(2)) {
        LaunchStep::Respond(a) => {
            assert!(a.ok && a.launching);
            assert_eq!(a.position, Some(2));
        }
        LaunchStep::EnqueueNow => panic!("a queued device must not be enqueued again"),
    }

    assert!(matches!(
        launch_check_reply(LaunchQueueInfo::NotInQueue),
        LaunchStep::EnqueueNow
    ));

    match launch_check_reply(LaunchQueueInfo::Error("no dice".to_string())) {
        LaunchStep::Respond(a) => {
            assert!(!a.ok && !a.launching);
            assert_eq!(a.error.as_deref(), Some("no dice"));
        }
        LaunchStep::EnqueueNow => panic!("a failed launch must be reported"),
    }

    match launch_check_reply(LaunchQueueInfo::ServerError) {
        LaunchStep::Respond(a) => {
            assert_eq!(a.error.as_deref(), Some("Failed to get launch status"));
        }
        LaunchStep::EnqueueNow => panic!("a store fault must be reported"),
    }
}

#[test]
fn enqueue_replies_report_position_or_fault() {
    let a = launch_enqueue_reply(Some(4));
    assert!(a.ok && a.launching);
    assert_eq!(a.position, Some(4));

    let a = launch_enqueue_reply(None);
    assert!(!a.ok && !a.launching);
    assert_eq!(a.error.as_deref(), Some("Failed to add to queue"));
}
