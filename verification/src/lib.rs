//! The coordination core of a server that keeps debug sessions to mobile
//! devices alive, provisions developer disk images onto them, and queues
//! application-launch requests for an external worker pool.
//!
//! Three engines share the per-device coordination patterns: the heartbeat
//! manager keeps exactly one keep-alive loop per device, the mount broker
//! drives at most one mount worker per device while broadcasting its
//! progress, and the launch queue orders requests durably with
//! self-compacting positions. Each engine's state and transitions live here
//! with their contracts; the network, store and device-protocol shells hand
//! them plain values.

pub mod apps;
pub mod devmap;
pub mod heartbeat;
pub mod mount;
pub mod netid;
pub mod queue;
pub mod replies;
pub mod version;
