use vstd::prelude::*;

use crate::queue::LaunchQueueInfo;

verus! {

/// The reply of the status endpoint's poll.
pub struct StatusReturn {
    pub done: bool,
    pub ok: bool,
    pub position: usize,
    pub error: Option<String>,
}

/// The reply of a launch request.
pub struct LaunchAppReturn {
    pub ok: bool,
    pub launching: bool,
    pub position: Option<usize>,
    pub error: Option<String>,
}

/// What a launch request does next after the queue was checked: answer the
/// caller at once, or insert the new request into the queue first.
pub enum LaunchStep {
    Respond(LaunchAppReturn),
    EnqueueNow,
}

/// The status reply for one queue answer. A queued launch reports its
/// position and is not done; an absent device is done with nothing to report;
/// a delivered failure and a store fault are done with their message.
pub fn status_reply(info: LaunchQueueInfo) -> (r: StatusReturn)
    ensures
        match info {
            LaunchQueueInfo::Position(p) => r.ok && !r.done && r.position == p && r.error
                is None,
            LaunchQueueInfo::NotInQueue => r.ok && r.done && r.position == 0 && r.error is None,
            LaunchQueueInfo::Error(m) => !r.ok && r.done && r.position == 0 && (r.error
                matches Some(e) && e@ == m@),
            LaunchQueueInfo::ServerError => !r.ok && r.done && r.position == 0 && (r.error
                matches Some(e) && e@ == "server error"@),
        },
{
    match info {
        LaunchQueueInfo::Position(p) => StatusReturn {
            done: false,
            ok: true,
            position: p,
            error: None,
        },
        LaunchQueueInfo::NotInQueue => StatusReturn {
            done: true,
            ok: true,
            position: 0,
            error: None,
        },
        LaunchQueueInfo::Error(m) => StatusReturn {
            done: true,
            ok: false,
            position: 0,
            error: Some(m),
        },
        LaunchQueueInfo::ServerError => StatusReturn {
            done: true,
            ok: false,
            position: 0,
            error: Some("server error".to_owned()),
        },
    }
}

/// What the launch request does with the queue's answer: an already queued
/// device is told its position, a delivered failure or store fault is
/// reported, and only a device not in the queue goes on to enqueue.
pub fn launch_check_reply(info: LaunchQueueInfo) -> (r: LaunchStep)
    ensures
        match info {
            LaunchQueueInfo::Position(p) => (r matches LaunchStep::Respond(a) && a.ok
                && a.launching && a.position == Some(p) && a.error is None),
            LaunchQueueInfo::NotInQueue => r is EnqueueNow,
            LaunchQueueInfo::Error(m) => (r matches LaunchStep::Respond(a) && !a.ok
                && !a.launching && a.position is None && (a.error matches Some(e) && e@ == m@)),
            LaunchQueueInfo::ServerError => (r matches LaunchStep::Respond(a) && !a.ok
                && !a.launching && a.position is None && (a.error matches Some(e) && e@
                == "Failed to get launch status"@)),
        },
{
    match info {
        LaunchQueueInfo::Position(p) => LaunchStep::Respond(
            LaunchAppReturn { ok: true, launching: true, position: Some(p), error: None },
        ),
        LaunchQueueInfo::NotInQueue => LaunchStep::EnqueueNow,
        LaunchQueueInfo::Error(m) => LaunchStep::Respond(
            LaunchAppReturn { ok: false, launching: false, position: None, error: Some(m) },
        ),
        LaunchQueueInfo::ServerError => LaunchStep::Respond(
            LaunchAppReturn {
                ok: false,
                launching: false,
                position: None,
                error: Some("Failed to get launch status".to_owned()),
            },
        ),
    }
}

/// The reply once the new request was enqueued, or could not be stored.
pub fn launch_enqueue_reply(position: Option<usize>) -> (r: LaunchAppReturn)
    ensures
        match position {
            Some(p) => r.ok && r.launching && r.position == Some(p) && r.error is None,
            None => !r.ok && !r.launching && r.position is None && (r.error matches Some(e)
                && e@ == "Failed to add to queue"@),
        },
{
    match position {
        Some(p) => LaunchAppReturn { ok: true, launching: true, position: Some(p), error: None },
        None => LaunchAppReturn {
            ok: false,
            launching: false,
            position: None,
            error: Some("Failed to add to queue".to_owned()),
        },
    }
}

} // verus!
