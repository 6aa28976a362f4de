use vstd::prelude::*;

use crate::devmap::DeviceMap;

verus! {

/// The reply of a poll-style mount check.
pub struct CheckMountResponse {
    pub ok: bool,
    pub error: Option<String>,
    pub mounting: bool,
}

/// The progress a mount worker last published: bytes moved so far, the total
/// to move, and whether the whole mount protocol exchange finished.
pub struct MountProgress {
    pub bytes_done: usize,
    pub bytes_total: usize,
    pub complete: bool,
}

/// The value held in a device's progress broadcast slot.
pub enum MountSlot {
    Progress(MountProgress),
    Failed(String),
}

/// What the device reported when a mount check found no cached entry: the
/// session could not be held or queried (with the message to report), a
/// developer image is already mounted, or none is.
pub enum ImageCheck {
    Failed(String),
    DeveloperPresent,
    DeveloperAbsent,
}

/// One message of a progress stream.
pub struct MountStreamMessage {
    pub ok: bool,
    pub bytes_done: usize,
    pub bytes_total: usize,
    pub error: Option<String>,
    pub done: bool,
}

/// The mount broker: a lock-protected cache from device identity to that
/// device's progress broadcast slot, together with the accounting of how many
/// mount workers were spawned and not yet finished per device.
pub struct MountBroker {
    cache: DeviceMap<MountSlot>,
    workers: Ghost<Map<Seq<char>, nat>>,
}

/// The slot the broker caches when a mount is first initiated.
pub open spec fn initial_slot() -> MountSlot {
    MountSlot::Progress(MountProgress { bytes_done: 0, bytes_total: 100, complete: false })
}

impl MountBroker {
    /// The cached slot per device identity.
    pub closed spec fn cache_map(self) -> Map<Seq<char>, MountSlot> {
        self.cache@
    }

    /// How many mount workers are running for device `d`: spawned by a mount
    /// check that found no image, and not yet ended by a terminal publish.
    pub closed spec fn worker_count(self, d: Seq<char>) -> nat {
        if self.workers@.dom().contains(d) {
            self.workers@[d]
        } else {
            0
        }
    }

    /// True when a mount for `d` is in flight: a slot is cached and holds
    /// progress that is not yet complete.
    pub open spec fn in_flight(self, d: Seq<char>) -> bool {
        self.cache_map().dom().contains(d)
            && (self.cache_map()[d] matches MountSlot::Progress(p) && !p.complete)
    }

    /// The broker's invariant: one slot per device, progress never claims more
    /// bytes done than the total, and each device has a worker exactly while
    /// its mount is in flight.
    pub closed spec fn wf(self) -> bool {
        &&& self.cache.wf()
        &&& forall|d: Seq<char>|
            #![trigger self.cache_map()[d]]
            self.cache_map().dom().contains(d)
                ==> (self.cache_map()[d] matches MountSlot::Progress(p)
                    ==> p.bytes_done <= p.bytes_total)
        &&& forall|d: Seq<char>|
            #![trigger self.worker_count(d)]
            self.worker_count(d) == (if self.in_flight(d) { 1nat } else { 0nat })
    }

    /// A broker with no cached slots and no workers.
    pub fn new() -> (b: Self)
        ensures
            b.wf(),
            b.cache_map() =~= Map::<Seq<char>, MountSlot>::empty(),
    {
        let b = MountBroker { cache: DeviceMap::new(), workers: Ghost(Map::empty()) };
        proof {
            assert forall|d: Seq<char>| #![trigger b.worker_count(d)]
                b.worker_count(d) == (if b.in_flight(d) { 1nat } else { 0nat }) by {}
        }
        b
    }

    /// The poll-style check of a cached entry. A device without an entry gives
    /// `None`: the caller must then query the device itself and hand the
    /// outcome to `resolve_absent`. An in-flight entry reports that mounting
    /// is in progress and stays cached. A complete or failed entry is drained:
    /// the reply carries the result, and the entry is removed so that the next
    /// check can start a fresh mount.
    pub fn poll(&mut self, device: &String) -> (r: Option<CheckMountResponse>)
        requires
            old(self).wf(),
        ensures
            final(self).wf(),
            !old(self).cache_map().dom().contains(device@) ==> {
                &&& r is None
                &&& final(self).cache_map() == old(self).cache_map()
            },
            old(self).in_flight(device@) ==> {
                &&& (r matches Some(resp) && resp.ok && resp.mounting && resp.error is None)
                &&& final(self).cache_map() == old(self).cache_map()
            },
            old(self).cache_map().dom().contains(device@) ==> (old(self).cache_map()[device@]
                matches MountSlot::Progress(p) ==> (p.complete ==> {
                &&& (r matches Some(resp) && resp.ok && !resp.mounting && resp.error is None)
                &&& final(self).cache_map() == old(self).cache_map().remove(device@)
            })),
            old(self).cache_map().dom().contains(device@) ==> (old(self).cache_map()[device@]
                matches MountSlot::Failed(m) ==> {
                &&& (r matches Some(resp) && !resp.ok && !resp.mounting
                    && (resp.error matches Some(e) && e@ == m@))
                &&& final(self).cache_map() == old(self).cache_map().remove(device@)
            }),
            forall|d: Seq<char>| #![trigger final(self).worker_count(d)]
                final(self).worker_count(d) == old(self).worker_count(d),
    {
        let mut failure: Option<String> = None;
        match self.cache.get(device) {
            None => {
                return None;
            },
            Some(MountSlot::Progress(p)) => {
                if !p.complete {
                    return Some(CheckMountResponse { ok: true, error: None, mounting: true });
                }
            },
            Some(MountSlot::Failed(m)) => {
                failure = Some(m.clone());
            },
        }
        self.cache.remove(device);
        proof {
            assert forall|d: Seq<char>| #![trigger self.worker_count(d)]
                self.worker_count(d) == (if self.in_flight(d) { 1nat } else { 0nat }) by {
                assert(self.worker_count(d) == old(self).worker_count(d));
                if d != device@ {
                    assert(self.in_flight(d) == old(self).in_flight(d));
                } else {
                    assert(!self.in_flight(d));
                    assert(!old(self).in_flight(d));
                }
            }
        }
        match failure {
            None => Some(CheckMountResponse { ok: true, error: None, mounting: false }),
            Some(e) => Some(
                CheckMountResponse { ok: false, error: Some(e), mounting: false },
            ),
        }
    }

    /// The second half of a mount check for a device that had no cached entry,
    /// fed with what the device itself reported. Failure to reach or query the
    /// device reports the message and caches nothing. A developer image that
    /// is already mounted reports success with no entry created. A missing
    /// image caches the initial slot and directs the caller to spawn the one
    /// mount worker for this device: inserting before spawning, under the same
    /// lock as the lookup, is what keeps a second concurrent check from ever
    /// spawning another.
    pub fn resolve_absent(&mut self, device: String, outcome: ImageCheck) -> (r:
        CheckMountResponse)
        requires
            old(self).wf(),
            !old(self).cache_map().dom().contains(device@),
        ensures
            final(self).wf(),
            match outcome {
                ImageCheck::Failed(m) => {
                    &&& !r.ok && !r.mounting
                    &&& (r.error matches Some(e) && e@ == m@)
                    &&& final(self).cache_map() == old(self).cache_map()
                    &&& final(self).worker_count(device@) == old(self).worker_count(device@)
                },
                ImageCheck::DeveloperPresent => {
                    &&& r.ok && !r.mounting && r.error is None
                    &&& final(self).cache_map() == old(self).cache_map()
                    &&& final(self).worker_count(device@) == old(self).worker_count(device@)
                },
                ImageCheck::DeveloperAbsent => {
                    &&& r.ok && r.mounting && r.error is None
                    &&& final(self).cache_map() == old(self).cache_map().insert(
                        device@,
                        initial_slot(),
                    )
                    &&& final(self).in_flight(device@)
                    &&& final(self).worker_count(device@) == 1
                },
            },
            forall|d: Seq<char>| #![trigger final(self).worker_count(d)]
                d != device@ ==> final(self).worker_count(d) == old(self).worker_count(d),
    {
        match outcome {
            ImageCheck::Failed(m) => CheckMountResponse {
                ok: false,
                error: Some(m),
                mounting: false,
            },
            ImageCheck::DeveloperPresent => CheckMountResponse {
                ok: true,
                error: None,
                mounting: false,
            },
            ImageCheck::DeveloperAbsent => {
                let ghost dev: Seq<char> = device@;
                self.cache.insert(
                    device,
                    MountSlot::Progress(
                        MountProgress { bytes_done: 0, bytes_total: 100, complete: false },
                    ),
                );
                self.workers = Ghost(self.workers@.insert(dev, 1nat));
                proof {
                    assert forall|d: Seq<char>| #![trigger self.worker_count(d)]
                        self.worker_count(d) == (if self.in_flight(d) { 1nat } else { 0nat }) by {
                        if d != dev {
                            assert(self.worker_count(d) == old(self).worker_count(d));
                            assert(self.in_flight(d) == old(self).in_flight(d));
                        }
                    }
                }
                CheckMountResponse { ok: true, error: None, mounting: true }
            },
        }
    }

    /// The running worker publishes fresh progress into its device's slot.
    /// Progress is monotonic: the bytes done never fall below what the slot
    /// already shows, and never exceed the total.
    pub fn publish_progress(&mut self, device: &String, done: usize, total: usize)
        requires
            old(self).wf(),
            old(self).in_flight(device@),
            done <= total,
            old(self).cache_map()[device@] matches MountSlot::Progress(p) ==> p.bytes_done
                <= done,
        ensures
            final(self).wf(),
            final(self).cache_map() == old(self).cache_map().insert(
                device@,
                MountSlot::Progress(
                    MountProgress { bytes_done: done, bytes_total: total, complete: false },
                ),
            ),
            final(self).in_flight(device@),
            (old(self).cache_map()[device@] matches MountSlot::Progress(p)
                && final(self).cache_map()[device@] matches MountSlot::Progress(q)
                && p.bytes_done <= q.bytes_done),
            forall|d: Seq<char>| #![trigger final(self).worker_count(d)]
                final(self).worker_count(d) == old(self).worker_count(d),
    {
        self.cache.insert(
            device.clone(),
            MountSlot::Progress(
                MountProgress { bytes_done: done, bytes_total: total, complete: false },
            ),
        );
        proof {
            self.lemma_keep_in_flight(*old(self), device@);
        }
    }

    /// The worker finished the whole exchange: the slot becomes complete, with
    /// all of the last published total transferred, and the worker is done.
    pub fn publish_complete(&mut self, device: &String)
        requires
            old(self).wf(),
            old(self).in_flight(device@),
        ensures
            final(self).wf(),
            (old(self).cache_map()[device@] matches MountSlot::Progress(p)
                && final(self).cache_map() == old(self).cache_map().insert(
                    device@,
                    MountSlot::Progress(
                        MountProgress {
                            bytes_done: p.bytes_total,
                            bytes_total: p.bytes_total,
                            complete: true,
                        },
                    ),
                )),
            !final(self).in_flight(device@),
            final(self).worker_count(device@) == 0,
            forall|d: Seq<char>| #![trigger final(self).worker_count(d)]
                d != device@ ==> final(self).worker_count(d) == old(self).worker_count(d),
    {
        let total: usize = match self.cache.get(device) {
            Some(MountSlot::Progress(p)) => p.bytes_total,
            _ => 0,
        };
        self.cache.insert(
            device.clone(),
            MountSlot::Progress(
                MountProgress { bytes_done: total, bytes_total: total, complete: true },
            ),
        );
        let ghost dev: Seq<char> = device@;
        self.workers = Ghost(self.workers@.insert(dev, 0nat));
        proof {
            self.lemma_terminal(*old(self), dev);
        }
    }

    /// The worker hit a protocol failure: the slot becomes the terminal
    /// failure message, and the worker is done.
    pub fn publish_failure(&mut self, device: &String, message: String)
        requires
            old(self).wf(),
            old(self).in_flight(device@),
        ensures
            final(self).wf(),
            final(self).cache_map() == old(self).cache_map().insert(
                device@,
                MountSlot::Failed(message),
            ),
            !final(self).in_flight(device@),
            final(self).worker_count(device@) == 0,
            forall|d: Seq<char>| #![trigger final(self).worker_count(d)]
                d != device@ ==> final(self).worker_count(d) == old(self).worker_count(d),
    {
        self.cache.insert(device.clone(), MountSlot::Failed(message));
        let ghost dev: Seq<char> = device@;
        self.workers = Ghost(self.workers@.insert(dev, 0nat));
        proof {
            self.lemma_terminal(*old(self), dev);
        }
    }

    /// The current slot of a device, as a stream observer subscribes to it;
    /// `None` when nothing is cached and the stream must close at once.
    pub fn current_slot(&self, device: &String) -> (r: Option<&MountSlot>)
        requires
            self.wf(),
        ensures
            match r {
                Some(slot) => self.cache_map().dom().contains(device@) && *slot
                    == self.cache_map()[device@],
                None => !self.cache_map().dom().contains(device@),
            },
    {
        self.cache.get(device)
    }

    /// After a worker update for `dev` that keeps the mount in flight, the
    /// worker accounting still matches the cache.
    proof fn lemma_keep_in_flight(self, pre: Self, dev: Seq<char>)
        requires
            pre.wf(),
            pre.in_flight(dev),
            self.workers@ == pre.workers@,
            self.cache.wf(),
            self.cache_map() == pre.cache_map().insert(dev, self.cache_map()[dev]),
            self.cache_map().dom().contains(dev),
            self.in_flight(dev),
        ensures
            forall|d: Seq<char>| #![trigger self.worker_count(d)]
                self.worker_count(d) == (if self.in_flight(d) { 1nat } else { 0nat }),
    {
        assert forall|d: Seq<char>| #![trigger self.worker_count(d)]
            self.worker_count(d) == (if self.in_flight(d) { 1nat } else { 0nat }) by {
            assert(self.worker_count(d) == pre.worker_count(d));
            if d != dev {
                assert(self.in_flight(d) == pre.in_flight(d));
            }
        }
    }

    /// After a terminal publish for `dev`, the worker accounting still
    /// matches the cache.
    proof fn lemma_terminal(self, pre: Self, dev: Seq<char>)
        requires
            pre.wf(),
            self.workers@ == pre.workers@.insert(dev, 0nat),
            self.cache.wf(),
            self.cache_map() == pre.cache_map().insert(dev, self.cache_map()[dev]),
            self.cache_map().dom().contains(dev),
            !self.in_flight(dev),
        ensures
            forall|d: Seq<char>| #![trigger self.worker_count(d)]
                self.worker_count(d) == (if self.in_flight(d) { 1nat } else { 0nat }),
    {
        assert forall|d: Seq<char>| #![trigger self.worker_count(d)]
            self.worker_count(d) == (if self.in_flight(d) { 1nat } else { 0nat }) by {
            if d != dev {
                assert(self.worker_count(d) == pre.worker_count(d));
                assert(self.in_flight(d) == pre.in_flight(d));
            }
        }
    }
}

/// For every device, at most one mount worker is running in any reachable
/// broker state, however many mount checks raced: spawned workers are counted
/// in, finished workers are counted out, and the count never passes one.
pub proof fn lemma_at_most_one_worker(b: MountBroker, d: Seq<char>)
    requires
        b.wf(),
    ensures
        b.worker_count(d) <= 1,
{
}

/// The message a stream observer is sent for the current slot value.
pub fn stream_message(slot: &MountSlot) -> (m: MountStreamMessage)
    ensures
        match slot {
            MountSlot::Progress(p) => {
                &&& m.ok && m.error is None
                &&& m.bytes_done == p.bytes_done && m.bytes_total == p.bytes_total
                &&& m.done == p.complete
            },
            MountSlot::Failed(e) => {
                &&& !m.ok && !m.done
                &&& m.bytes_done == 0 && m.bytes_total == 0
                &&& (m.error matches Some(msg) && msg@ == e@)
            },
        },
{
    match slot {
        MountSlot::Progress(p) => MountStreamMessage {
            ok: true,
            bytes_done: p.bytes_done,
            bytes_total: p.bytes_total,
            error: None,
            done: p.complete,
        },
        MountSlot::Failed(e) => MountStreamMessage {
            ok: false,
            bytes_done: 0,
            bytes_total: 0,
            error: Some(e.clone()),
            done: false,
        },
    }
}

/// The single message sent when a stream is opened for a device with nothing
/// in progress, before the stream closes.
pub fn stream_idle_message() -> (m: MountStreamMessage)
    ensures
        m.ok && m.error is None && !m.done,
        m.bytes_done == 0 && m.bytes_total == 0,
{
    MountStreamMessage { ok: true, bytes_done: 0, bytes_total: 0, error: None, done: false }
}

/// The marker that identifies a developer disk image inside the serialized
/// image description.
pub open spec fn developer_tag() -> Seq<u8> {
    seq![68u8, 101u8, 118u8, 101u8, 108u8, 111u8, 112u8, 101u8, 114u8]
}

/// True when the marker occurs in `s` starting at position `i`.
pub open spec fn has_tag_at(s: Seq<u8>, i: int) -> bool {
    0 <= i && i + 9 <= s.len() && s.subrange(i, i + 9) == developer_tag()
}

/// True when the serialized image description carries the developer marker.
pub open spec fn spec_has_developer(s: Seq<u8>) -> bool {
    exists|i: int| has_tag_at(s, i)
}

/// Whether one serialized image description marks a developer image.
pub fn contains_developer_tag(data: &Vec<u8>) -> (r: bool)
    ensures
        r == spec_has_developer(data@),
{
    let n = data.len();
    if n < 9 {
        proof {
            assert forall|i: int| !has_tag_at(data@, i) by {}
        }
        return false;
    }
    let mut i: usize = 0;
    while i <= n - 9
        invariant
            9 <= n == data@.len(),
            0 <= i <= n - 9 + 1,
            forall|k: int| 0 <= k < i ==> !has_tag_at(data@, k),
        decreases n - i,
    {
        let hit = data[i] == 68 && data[i + 1] == 101 && data[i + 2] == 118 && data[i + 3]
            == 101 && data[i + 4] == 108 && data[i + 5] == 111 && data[i + 6] == 112 && data[i
            + 7] == 101 && data[i + 8] == 114;
        if hit {
            proof {
                let t = data@.subrange(i as int, i as int + 9);
                assert(t.len() == 9);
                assert(t[0] == data@[i as int]);
                assert(t[1] == data@[i as int + 1]);
                assert(t[2] == data@[i as int + 2]);
                assert(t[3] == data@[i as int + 3]);
                assert(t[4] == data@[i as int + 4]);
                assert(t[5] == data@[i as int + 5]);
                assert(t[6] == data@[i as int + 6]);
                assert(t[7] == data@[i as int + 7]);
                assert(t[8] == data@[i as int + 8]);
                assert(t =~= developer_tag());
                assert(has_tag_at(data@, i as int));
            }
            return true;
        }
        proof {
            assert(!has_tag_at(data@, i as int)) by {
                if has_tag_at(data@, i as int) {
                    let t = data@.subrange(i as int, i as int + 9);
                    assert(t[0] == data@[i as int]);
                    assert(t[1] == data@[i as int + 1]);
                    assert(t[2] == data@[i as int + 2]);
                    assert(t[3] == data@[i as int + 3]);
                    assert(t[4] == data@[i as int + 4]);
                    assert(t[5] == data@[i as int + 5]);
                    assert(t[6] == data@[i as int + 6]);
                    assert(t[7] == data@[i as int + 7]);
                    assert(t[8] == data@[i as int + 8]);
                }
            }
        }
        i += 1;
    }
    proof {
        assert forall|k: int| !has_tag_at(data@, k) by {
            if 0 <= k < i {
            } else if k + 9 > data@.len() || k < 0 {
            }
        }
    }
    false
}

/// Whether any of the device's serialized image descriptions marks a
/// developer image: the signal that the disk image is already mounted.
pub fn image_list_has_developer(images: &Vec<Vec<u8>>) -> (r: bool)
    ensures
        r == exists|i: int|
            #![trigger images@[i]]
            0 <= i < images@.len() && spec_has_developer(images@[i]@),
{
    let n = images.len();
    let mut i: usize = 0;
    while i < n
        invariant
            n == images@.len(),
            0 <= i <= n,
            forall|k: int| #![trigger images@[k]] 0 <= k < i ==> !spec_has_developer(
                images@[k]@,
            ),
        decreases n - i,
    {
        if contains_developer_tag(&images[i]) {
            return true;
        }
        i += 1;
    }
    false
}

} // verus!

