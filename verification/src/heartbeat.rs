use vstd::prelude::*;

use crate::devmap::DeviceMap;

verus! {

/// A command for the heartbeat manager's control task: store a fresh keep-alive
/// handle for a device identity, or kill the device's current one. Handles are
/// identified by the number the manager issued for them; the task that runs the
/// keep-alive loop holds the matching cancellation channel.
pub enum SendRequest {
    Store((String, u64)),
    Kill(String),
}

/// The control state of the heartbeat manager. It owns the mapping from device
/// identity to the handle of the one keep-alive loop kept live for that device.
/// Commands are applied one at a time, in arrival order.
pub struct HeartbeatManager {
    cache: DeviceMap<u64>,
    next_handle: u64,
    issued: Ghost<Set<u64>>,
    cancelled: Ghost<Set<u64>>,
}

impl HeartbeatManager {
    /// The device-to-handle mapping of the loops currently kept.
    pub closed spec fn loops(self) -> Map<Seq<char>, u64> {
        self.cache@
    }

    /// The handles that were issued but not yet stored or cancelled.
    pub closed spec fn issued_set(self) -> Set<u64> {
        self.issued@
    }

    /// The handles whose cancellation signal has been sent.
    pub closed spec fn cancelled_set(self) -> Set<u64> {
        self.cancelled@
    }

    /// How many handles were issued so far.
    pub closed spec fn handles_issued(self) -> u64 {
        self.next_handle
    }

    /// True when `h` is kept for some device.
    pub open spec fn stored(self, h: u64) -> bool {
        exists|d: Seq<char>|
            #![trigger self.loops()[d]]
            self.loops().dom().contains(d) && self.loops()[d] == h
    }

    /// True when `h` is the handle kept for device `d` and was never cancelled:
    /// the loop it belongs to is still wanted alive.
    pub open spec fn live(self, d: Seq<char>, h: u64) -> bool {
        self.loops().dom().contains(d) && self.loops()[d] == h
            && !self.cancelled_set().contains(h)
    }

    /// The manager's invariant: kept handles are pairwise distinct, below the
    /// issue counter, and neither still waiting to be stored nor cancelled;
    /// waiting and cancelled handles never overlap.
    pub closed spec fn wf(self) -> bool {
        &&& self.cache.wf()
        &&& forall|d: Seq<char>|
            #![trigger self.loops()[d]]
            self.loops().dom().contains(d) ==> {
                &&& self.loops()[d] < self.next_handle
                &&& !self.issued@.contains(self.loops()[d])
                &&& !self.cancelled@.contains(self.loops()[d])
            }
        &&& forall|d1: Seq<char>, d2: Seq<char>|
            #![trigger self.loops()[d1], self.loops()[d2]]
            self.loops().dom().contains(d1) && self.loops().dom().contains(d2) && d1 != d2
                ==> self.loops()[d1] != self.loops()[d2]
        &&& forall|h: u64| #![trigger self.issued@.contains(h)]
            self.issued@.contains(h) ==> h < self.next_handle && !self.cancelled@.contains(h)
        &&& forall|h: u64| #![trigger self.cancelled@.contains(h)]
            self.cancelled@.contains(h) ==> h < self.next_handle
    }

    /// A manager with no loops, nothing issued and nothing cancelled.
    pub fn new() -> (m: Self)
        ensures
            m.wf(),
            m.loops() =~= Map::<Seq<char>, u64>::empty(),
            m.issued_set() =~= Set::<u64>::empty(),
            m.cancelled_set() =~= Set::<u64>::empty(),
            m.handles_issued() == 0,
    {
        HeartbeatManager {
            cache: DeviceMap::new(),
            next_handle: 0,
            issued: Ghost(Set::empty()),
            cancelled: Ghost(Set::empty()),
        }
    }

    /// Issue the handle for a newly started keep-alive loop. The handle is
    /// fresh: it is not kept for any device and was never cancelled.
    pub fn issue_handle(&mut self) -> (h: u64)
        requires
            old(self).wf(),
            old(self).handles_issued() < u64::MAX,
        ensures
            final(self).wf(),
            !old(self).issued_set().contains(h),
            !old(self).stored(h),
            !old(self).cancelled_set().contains(h),
            final(self).issued_set() =~= old(self).issued_set().insert(h),
            final(self).loops() == old(self).loops(),
            final(self).cancelled_set() == old(self).cancelled_set(),
            final(self).handles_issued() == old(self).handles_issued() + 1,
    {
        let h = self.next_handle;
        self.next_handle = self.next_handle + 1;
        self.issued = Ghost(self.issued@.insert(h));
        proof {
            let pre = *old(self);
            let post = *self;
            assert(post.loops() == pre.loops());
            assert forall|d: Seq<char>| #![trigger pre.loops()[d]]
                pre.loops().dom().contains(d) implies pre.loops()[d] != h by {}
            assert(!pre.stored(h));
            assert forall|d: Seq<char>| #![trigger post.loops()[d]]
                post.loops().dom().contains(d) implies {
                    &&& post.loops()[d] < post.next_handle
                    &&& !post.issued@.contains(post.loops()[d])
                    &&& !post.cancelled@.contains(post.loops()[d])
                } by {
                assert(pre.loops().dom().contains(d));
                assert(pre.loops()[d] < pre.next_handle);
                assert(pre.loops()[d] != h);
            }
            assert forall|h2: u64| #![trigger post.issued@.contains(h2)]
                post.issued@.contains(h2) implies
                    h2 < post.next_handle && !post.cancelled@.contains(h2) by {
                if h2 != h {
                    assert(pre.issued@.contains(h2));
                }
            }
        }
        h
    }

    /// Apply one command, in the order the control task received it. The
    /// result is the handle whose loop must now be sent its cancellation
    /// signal: on `Store`, the replaced handle, which is cancelled before the
    /// new one takes its place; on `Kill`, the removed handle. The command
    /// never cancels the handle it stores, so the newest handle stays live.
    pub fn apply(&mut self, req: SendRequest) -> (victim: Option<u64>)
        requires
            old(self).wf(),
            req matches SendRequest::Store((_, h)) ==> old(self).issued_set().contains(h),
        ensures
            final(self).wf(),
            final(self).handles_issued() == old(self).handles_issued(),
            match req {
                SendRequest::Store((udid, h)) => {
                    &&& final(self).loops() =~= old(self).loops().insert(udid@, h)
                    &&& final(self).issued_set() =~= old(self).issued_set().remove(h)
                    &&& final(self).live(udid@, h)
                },
                SendRequest::Kill(udid) => {
                    &&& final(self).loops() =~= old(self).loops().remove(udid@)
                    &&& final(self).issued_set() == old(self).issued_set()
                },
            },
            victim == (match req {
                SendRequest::Store((udid, _)) | SendRequest::Kill(udid) => {
                    if old(self).loops().dom().contains(udid@) {
                        Some(old(self).loops()[udid@])
                    } else {
                        None::<u64>
                    }
                },
            }),
            match victim {
                Some(v) => final(self).cancelled_set() =~= old(self).cancelled_set().insert(v),
                None => final(self).cancelled_set() == old(self).cancelled_set(),
            },
    {
        match req {
            SendRequest::Store((udid, handle)) => {
                let ghost ud: Seq<char> = udid@;
                let prev = self.cache.insert(udid, handle);
                if let Some(old_h) = prev {
                    self.cancelled = Ghost(self.cancelled@.insert(old_h));
                }
                self.issued = Ghost(self.issued@.remove(handle));
                proof {
                    let pre = *old(self);
                    let post = *self;
                    assert(post.loops() == pre.loops().insert(ud, handle));
                    assert forall|d: Seq<char>| #![trigger post.loops()[d]]
                        post.loops().dom().contains(d) implies {
                            &&& post.loops()[d] < post.next_handle
                            &&& !post.issued@.contains(post.loops()[d])
                            &&& !post.cancelled@.contains(post.loops()[d])
                        } by {
                        if d == ud {
                            assert(post.loops()[d] == handle);
                            match prev {
                                Some(v) => {
                                    assert(v == pre.loops()[ud]);
                                    assert(!pre.issued@.contains(v));
                                    assert(v != handle);
                                },
                                None => {},
                            }
                        } else {
                            assert(pre.loops().dom().contains(d));
                            let v = pre.loops()[d];
                            assert(post.loops()[d] == v);
                            assert(!pre.issued@.contains(v));
                            assert(!pre.cancelled@.contains(v));
                            match prev {
                                Some(w) => {
                                    assert(w == pre.loops()[ud]);
                                    assert(pre.loops()[d] != pre.loops()[ud]);
                                },
                                None => {},
                            }
                        }
                    }
                    assert forall|d1: Seq<char>, d2: Seq<char>|
                        #![trigger post.loops()[d1], post.loops()[d2]]
                        post.loops().dom().contains(d1) && post.loops().dom().contains(d2)
                            && d1 != d2 implies post.loops()[d1] != post.loops()[d2] by {
                        if d1 == ud {
                            assert(pre.loops().dom().contains(d2));
                            assert(!pre.issued@.contains(pre.loops()[d2]));
                        } else if d2 == ud {
                            assert(pre.loops().dom().contains(d1));
                            assert(!pre.issued@.contains(pre.loops()[d1]));
                        } else {
                            assert(pre.loops()[d1] != pre.loops()[d2]);
                        }
                    }
                    assert forall|h2: u64| #![trigger post.issued@.contains(h2)]
                        post.issued@.contains(h2) implies
                            h2 < post.next_handle && !post.cancelled@.contains(h2) by {
                        assert(pre.issued@.contains(h2));
                        match prev {
                            Some(v) => {
                                assert(v == pre.loops()[ud]);
                                assert(!pre.issued@.contains(v));
                            },
                            None => {},
                        }
                    }
                    assert(post.live(ud, handle));
                }
                prev
            },
            SendRequest::Kill(udid) => {
                let prev = self.cache.remove(&udid);
                if let Some(old_h) = prev {
                    self.cancelled = Ghost(self.cancelled@.insert(old_h));
                }
                proof {
                    let pre = *old(self);
                    let post = *self;
                    assert(post.loops() == pre.loops().remove(udid@));
                    assert forall|d: Seq<char>| #![trigger post.loops()[d]]
                        post.loops().dom().contains(d) implies {
                            &&& post.loops()[d] < post.next_handle
                            &&& !post.issued@.contains(post.loops()[d])
                            &&& !post.cancelled@.contains(post.loops()[d])
                        } by {
                        assert(pre.loops().dom().contains(d));
                        assert(post.loops()[d] == pre.loops()[d]);
                        match prev {
                            Some(v) => {
                                assert(v == pre.loops()[udid@]);
                                assert(d != udid@);
                                assert(pre.loops()[d] != pre.loops()[udid@]);
                            },
                            None => {},
                        }
                    }
                    assert forall|h2: u64| #![trigger post.issued@.contains(h2)]
                        post.issued@.contains(h2) implies
                            h2 < post.next_handle && !post.cancelled@.contains(h2) by {
                        assert(pre.issued@.contains(h2));
                        match prev {
                            Some(v) => {
                                assert(v == pre.loops()[udid@]);
                                assert(!pre.issued@.contains(v));
                            },
                            None => {},
                        }
                    }
                }
                prev
            },
        }
    }
}

/// For every device at most one keep-alive loop is live, whatever sequence of
/// commands brought the manager to its state: two live handles for the same
/// device are the same handle.
pub proof fn lemma_at_most_one_live(m: HeartbeatManager, d: Seq<char>, h1: u64, h2: u64)
    requires
        m.wf(),
        m.live(d, h1),
        m.live(d, h2),
    ensures
        h1 == h2,
{
}

/// A live handle is live for only one device: the cancellation signal of a
/// replaced or killed loop can never reach the loop that is still wanted.
pub proof fn lemma_live_device_unique(m: HeartbeatManager, d1: Seq<char>, d2: Seq<char>, h: u64)
    requires
        m.wf(),
        m.live(d1, h),
        m.live(d2, h),
    ensures
        d1 == d2,
{
    assert(m.loops().dom().contains(d1) && m.loops().dom().contains(d2));
    if d1 != d2 {
        assert(m.loops()[d1] != m.loops()[d2]);
    }
}

/// A handle that received its cancellation signal is live for no device.
pub proof fn lemma_cancelled_never_live(m: HeartbeatManager, d: Seq<char>, h: u64)
    requires
        m.wf(),
        m.cancelled_set().contains(h),
    ensures
        !m.live(d, h),
{
}

} // verus!

