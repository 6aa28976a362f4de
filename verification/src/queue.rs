use vstd::prelude::*;

verus! {

/// What a queue status query reports to the caller: the position of a queued
/// launch, that nothing is queued, the failure message an external worker
/// left, or that the store itself could not be used.
pub enum LaunchQueueInfo {
    Position(usize),
    NotInQueue,
    Error(String),
    ServerError,
}

/// The lifecycle state of a queued row: waiting, claimed by an external
/// worker, or failed with the message the worker reported.
pub enum EntryStatus {
    Pending,
    Serviced,
    Error(String),
}

/// One durable row of the launch queue.
pub struct QueueEntry {
    pub ordinal: u64,
    pub device: String,
    pub requester_ip: String,
    pub bundle_id: String,
    pub status: EntryStatus,
}

/// True when the row is still waiting for a worker.
pub open spec fn is_pending(e: QueueEntry) -> bool {
    e.status is Pending
}

/// True when the row is waiting and ordered before ordinal `ord`.
pub open spec fn pending_below(e: QueueEntry, ord: u64) -> bool {
    is_pending(e) && e.ordinal < ord
}

/// How many rows of `s` are waiting with an ordinal below `ord`: the queue
/// position of the row carrying `ord`.
pub open spec fn count_pending_below(s: Seq<QueueEntry>, ord: u64) -> nat
    decreases s.len(),
{
    if s.len() == 0 {
        0
    } else {
        count_pending_below(s.drop_last(), ord) + (if pending_below(s.last(), ord) {
            1nat
        } else {
            0nat
        })
    }
}

/// True when some row of `s` belongs to device `d`.
pub open spec fn has_device(s: Seq<QueueEntry>, d: Seq<char>) -> bool {
    exists|i: int| #![trigger s[i]] 0 <= i < s.len() && s[i].device@ == d
}

/// True when `i` is the first row of `s` that belongs to device `d`.
pub open spec fn is_first_device_index(s: Seq<QueueEntry>, d: Seq<char>, i: int) -> bool {
    &&& 0 <= i < s.len()
    &&& s[i].device@ == d
    &&& forall|j: int| #![trigger s[j]] 0 <= j < i ==> s[j].device@ != d
}

/// The durable launch queue: rows in insertion order, with strictly
/// increasing ordinals assigned by the store.
pub struct LaunchQueue {
    entries: Vec<QueueEntry>,
    next_ordinal: u64,
}

impl View for LaunchQueue {
    type V = Seq<QueueEntry>;

    closed spec fn view(&self) -> Seq<QueueEntry> {
        self.entries@
    }
}

impl LaunchQueue {
    /// The ordinal the store will assign to the next row.
    pub closed spec fn next_ord(self) -> u64 {
        self.next_ordinal
    }

    /// Rows are sorted by ordinal, all below the next ordinal to assign.
    pub open spec fn wf(self) -> bool {
        &&& forall|i: int, j: int|
            #![trigger self@[i], self@[j]]
            0 <= i < j < self@.len() ==> self@[i].ordinal < self@[j].ordinal
        &&& forall|i: int| #![trigger self@[i]]
            0 <= i < self@.len() ==> self@[i].ordinal < self.next_ord()
    }

    /// An empty queue.
    pub fn new() -> (q: Self)
        ensures
            q.wf(),
            q@ =~= Seq::<QueueEntry>::empty(),
            q.next_ord() == 0,
    {
        LaunchQueue { entries: Vec::new(), next_ordinal: 0 }
    }

    /// How many rows the queue holds.
    pub fn len(&self) -> (n: usize)
        ensures
            n == self@.len(),
    {
        self.entries.len()
    }

    /// The index of the first row for `device`, if the device has one.
    fn find_first(&self, device: &String) -> (r: Option<usize>)
        ensures
            match r {
                Some(i) => is_first_device_index(self@, device@, i as int),
                None => !has_device(self@, device@),
            },
    {
        let n = self.entries.len();
        let mut i: usize = 0;
        while i < n
            invariant
                n == self@.len(),
                0 <= i <= n,
                forall|j: int| #![trigger self@[j]] 0 <= j < i ==> self@[j].device@ != device@,
            decreases n - i,
        {
            if self.entries[i].device == *device {
                return Some(i);
            }
            i += 1;
        }
        None
    }

    /// The position of the row with ordinal `ord`: how many rows are still
    /// waiting ahead of it.
    fn count_position(&self, ord: u64) -> (pos: usize)
        ensures
            pos == count_pending_below(self@, ord),
    {
        let n = self.entries.len();
        let mut pos: usize = 0;
        let mut i: usize = 0;
        while i < n
            invariant
                n == self@.len(),
                0 <= i <= n,
                pos <= i,
                pos == count_pending_below(self@.take(i as int), ord),
            decreases n - i,
        {
            proof {
                assert(self@.take(i as int + 1).drop_last() =~= self@.take(i as int));
                assert(self@.take(i as int + 1).last() == self@[i as int]);
            }
            let counted = match self.entries[i].status {
                EntryStatus::Pending => self.entries[i].ordinal < ord,
                _ => false,
            };
            if counted {
                pos += 1;
            }
            i += 1;
        }
        proof {
            assert(self@.take(n as int) =~= self@);
        }
        pos
    }

    /// The status query of the request path. No row for the device means the
    /// device is not in the queue. A claimed row is being serviced: position
    /// zero. A failed row's message is handed out exactly once: the row is
    /// deleted as its message is returned. A waiting row's position is the
    /// count of waiting rows with a smaller ordinal, which falls by itself as
    /// the external workers resolve the rows ahead.
    pub fn status(&mut self, device: &String) -> (r: LaunchQueueInfo)
        requires
            old(self).wf(),
        ensures
            final(self).wf(),
            final(self).next_ord() == old(self).next_ord(),
            !has_device(old(self)@, device@) ==> r is NotInQueue && final(self)@ == old(self)@,
            forall|i: int|
                #![trigger old(self)@[i]]
                is_first_device_index(old(self)@, device@, i) ==> {
                    &&& (old(self)@[i].status is Serviced ==> r == LaunchQueueInfo::Position(0)
                        && final(self)@ == old(self)@)
                    &&& (old(self)@[i].status matches EntryStatus::Error(m) ==> {
                        &&& (r matches LaunchQueueInfo::Error(e) && e@ == m@)
                        &&& final(self)@ == old(self)@.remove(i)
                    })
                    &&& (old(self)@[i].status is Pending ==> {
                        &&& (r matches LaunchQueueInfo::Position(p) && p
                            == count_pending_below(old(self)@, old(self)@[i].ordinal))
                        &&& final(self)@ == old(self)@
                    })
                },
    {
        let found = self.find_first(device);
        match found {
            None => LaunchQueueInfo::NotInQueue,
            Some(i) => {
                let is_error = match &self.entries[i].status {
                    EntryStatus::Error(_) => true,
                    _ => false,
                };
                if is_error {
                    let row = self.entries.remove(i);
                    proof {
                        lemma_sorted_remove(old(self)@, i as int, old(self).next_ord());
                    }
                    match row.status {
                        EntryStatus::Error(m) => LaunchQueueInfo::Error(m),
                        // The row was just tested to carry an error, so this
                        // arm is unreachable; the contract above proves it.
                        _ => LaunchQueueInfo::ServerError,
                    }
                } else {
                    match &self.entries[i].status {
                        EntryStatus::Serviced => LaunchQueueInfo::Position(0),
                        _ => {
                            let pos = self.count_position(self.entries[i].ordinal);
                            LaunchQueueInfo::Position(pos)
                        },
                    }
                }
            },
        }
    }

    /// Insert a waiting row for the request and return its position: the
    /// count of rows already waiting, every one of which carries a smaller
    /// ordinal. The queue itself never rejects a device that is already
    /// queued; the caller is expected to query `status` first.
    pub fn enqueue(&mut self, device: String, requester_ip: String, bundle_id: String) -> (pos:
        usize)
        requires
            old(self).wf(),
            old(self).next_ord() < u64::MAX,
        ensures
            final(self).wf(),
            final(self)@ == old(self)@.push(
                (QueueEntry {
                    ordinal: old(self).next_ord(),
                    device: device,
                    requester_ip: requester_ip,
                    bundle_id: bundle_id,
                    status: EntryStatus::Pending,
                }),
            ),
            final(self).next_ord() == old(self).next_ord() + 1,
            pos == count_pending_below(old(self)@, old(self).next_ord()),
    {
        let pos = self.count_position(self.next_ordinal);
        let entry = QueueEntry {
            ordinal: self.next_ordinal,
            device,
            requester_ip,
            bundle_id,
            status: EntryStatus::Pending,
        };
        self.entries.push(entry);
        self.next_ordinal = self.next_ordinal + 1;
        pos
    }

    /// Delete every row: run once at process start to drop the stale queue of
    /// an earlier run.
    pub fn drain_all(&mut self)
        requires
            old(self).wf(),
        ensures
            final(self).wf(),
            final(self)@ =~= Seq::<QueueEntry>::empty(),
            final(self).next_ord() == old(self).next_ord(),
    {
        self.entries.clear();
    }

    /// An external worker claims the device's row before launching: the row
    /// is reported as being serviced from here on.
    pub fn worker_claim(&mut self, device: &String) -> (changed: bool)
        requires
            old(self).wf(),
        ensures
            final(self).wf(),
            final(self).next_ord() == old(self).next_ord(),
            !has_device(old(self)@, device@) ==> !changed && final(self)@ == old(self)@,
            forall|i: int|
                #![trigger old(self)@[i]]
                is_first_device_index(old(self)@, device@, i) ==> changed && final(self)@
                    == old(self)@.update(i, (QueueEntry {
                        ordinal: old(self)@[i].ordinal,
                        device: old(self)@[i].device,
                        requester_ip: old(self)@[i].requester_ip,
                        bundle_id: old(self)@[i].bundle_id,
                        status: EntryStatus::Serviced,
                    })),
    {
        self.set_status(device, None)
    }

    /// An external worker reports that the launch for the device's row
    /// failed: the row keeps its place but carries the message.
    pub fn worker_fail(&mut self, device: &String, message: String) -> (changed: bool)
        requires
            old(self).wf(),
        ensures
            final(self).wf(),
            final(self).next_ord() == old(self).next_ord(),
            !has_device(old(self)@, device@) ==> !changed && final(self)@ == old(self)@,
            forall|i: int|
                #![trigger old(self)@[i]]
                is_first_device_index(old(self)@, device@, i) ==> changed && final(self)@
                    == old(self)@.update(i, (QueueEntry {
                        ordinal: old(self)@[i].ordinal,
                        device: old(self)@[i].device,
                        requester_ip: old(self)@[i].requester_ip,
                        bundle_id: old(self)@[i].bundle_id,
                        status: EntryStatus::Error(message),
                    })),
    {
        self.set_status(device, Some(message))
    }

    /// An external worker deletes the device's row after a successful launch.
    pub fn worker_complete(&mut self, device: &String) -> (changed: bool)
        requires
            old(self).wf(),
        ensures
            final(self).wf(),
            final(self).next_ord() == old(self).next_ord(),
            !has_device(old(self)@, device@) ==> !changed && final(self)@ == old(self)@,
            forall|i: int|
                #![trigger old(self)@[i]]
                is_first_device_index(old(self)@, device@, i) ==> changed && final(self)@
                    == old(self)@.remove(i),
    {
        let found = self.find_first(device);
        match found {
            None => false,
            Some(i) => {
                self.entries.remove(i);
                proof {
                    lemma_sorted_remove(old(self)@, i as int, old(self).next_ord());
                }
                true
            },
        }
    }

    /// Replace the status of the device's first row: the worker's claim when
    /// `message` is `None`, its failure report otherwise.
    fn set_status(&mut self, device: &String, message: Option<String>) -> (changed: bool)
        requires
            old(self).wf(),
        ensures
            final(self).wf(),
            final(self).next_ord() == old(self).next_ord(),
            !has_device(old(self)@, device@) ==> !changed && final(self)@ == old(self)@,
            forall|i: int|
                #![trigger old(self)@[i]]
                is_first_device_index(old(self)@, device@, i) ==> changed && final(self)@
                    == old(self)@.update(i, (QueueEntry {
                        ordinal: old(self)@[i].ordinal,
                        device: old(self)@[i].device,
                        requester_ip: old(self)@[i].requester_ip,
                        bundle_id: old(self)@[i].bundle_id,
                        status: match message {
                            None => EntryStatus::Serviced,
                            Some(m) => EntryStatus::Error(m),
                        },
                    })),
    {
        let found = self.find_first(device);
        match found {
            None => false,
            Some(i) => {
                let row = self.entries.remove(i);
                let updated = QueueEntry {
                    ordinal: row.ordinal,
                    device: row.device,
                    requester_ip: row.requester_ip,
                    bundle_id: row.bundle_id,
                    status: match message {
                        None => EntryStatus::Serviced,
                        Some(m) => EntryStatus::Error(m),
                    },
                };
                self.entries.insert(i, updated);
                proof {
                    let s = old(self)@;
                    let e = final(self)@[i as int];
                    s.remove_ensures(i as int);
                    s.remove(i as int).insert_ensures(i as int, e);
                    assert(final(self)@ =~= s.update(i as int, e));
                    assert forall|a: int, b: int|
                        #![trigger final(self)@[a], final(self)@[b]]
                        0 <= a < b < final(self)@.len() implies final(self)@[a].ordinal
                        < final(self)@[b].ordinal by {
                        assert(final(self)@[a].ordinal == s[a].ordinal);
                        assert(final(self)@[b].ordinal == s[b].ordinal);
                    }
                }
                true
            },
        }
    }
}

/// Removing any row of an ordinal-sorted run keeps it sorted and bounded.
proof fn lemma_sorted_remove(s: Seq<QueueEntry>, i: int, bound: u64)
    requires
        0 <= i < s.len(),
        forall|a: int, b: int| #![trigger s[a], s[b]] 0 <= a < b < s.len() ==> s[a].ordinal
            < s[b].ordinal,
        forall|a: int| #![trigger s[a]] 0 <= a < s.len() ==> s[a].ordinal < bound,
    ensures
        forall|a: int, b: int|
            #![trigger s.remove(i)[a], s.remove(i)[b]]
            0 <= a < b < s.remove(i).len() ==> s.remove(i)[a].ordinal < s.remove(i)[b].ordinal,
        forall|a: int| #![trigger s.remove(i)[a]] 0 <= a < s.remove(i).len() ==> s.remove(
            i,
        )[a].ordinal < bound,
{
    s.remove_ensures(i);
    assert forall|a: int, b: int|
        #![trigger s.remove(i)[a], s.remove(i)[b]]
        0 <= a < b < s.remove(i).len() implies s.remove(i)[a].ordinal < s.remove(i)[b].ordinal by {
        let a2 = if a < i { a } else { a + 1 };
        let b2 = if b < i { b } else { b + 1 };
        assert(s.remove(i)[a] == s[a2]);
        assert(s.remove(i)[b] == s[b2]);
        assert(s[a2].ordinal < s[b2].ordinal);
    }
    assert forall|a: int| #![trigger s.remove(i)[a]] 0 <= a < s.remove(i).len() implies s.remove(
        i,
    )[a].ordinal < bound by {
        let a2 = if a < i { a } else { a + 1 };
        assert(s.remove(i)[a] == s[a2]);
    }
}

/// A row's position never rises when a row elsewhere is resolved by deletion:
/// the count of waiting rows ahead of a fixed ordinal can only fall.
pub proof fn lemma_position_monotone_remove(s: Seq<QueueEntry>, j: int, ord: u64)
    requires
        0 <= j < s.len(),
    ensures
        count_pending_below(s.remove(j), ord) <= count_pending_below(s, ord),
    decreases s.len(),
{
    if j == s.len() - 1 {
        assert(s.remove(j) =~= s.drop_last());
    } else {
        let t = s.remove(j);
        s.remove_ensures(j);
        assert(t.drop_last() =~= s.drop_last().remove(j));
        assert(t.last() == s.last());
        lemma_position_monotone_remove(s.drop_last(), j, ord);
    }
}

/// A row's position never rises when a row elsewhere stops waiting: replacing
/// any row by a non-waiting one with the same place can only lower the count
/// of waiting rows ahead of a fixed ordinal.
pub proof fn lemma_position_monotone_resolve(s: Seq<QueueEntry>, j: int, e: QueueEntry, ord: u64)
    requires
        0 <= j < s.len(),
        !is_pending(e),
    ensures
        count_pending_below(s.update(j, e), ord) <= count_pending_below(s, ord),
    decreases s.len(),
{
    let t = s.update(j, e);
    if j == s.len() - 1 {
        assert(t.drop_last() =~= s.drop_last());
        assert(t.last() == e);
    } else {
        assert(t.drop_last() =~= s.drop_last().update(j, e));
        assert(t.last() == s.last());
        lemma_position_monotone_resolve(s.drop_last(), j, e, ord);
    }
}

/// A new row joining at the back, with an ordinal no smaller, leaves the
/// position of a fixed ordinal unchanged: a position never rises without an
/// insertion ahead, and rows are only ever appended with larger ordinals.
pub proof fn lemma_position_push(s: Seq<QueueEntry>, e: QueueEntry, ord: u64)
    requires
        e.ordinal >= ord,
    ensures
        count_pending_below(s.push(e), ord) == count_pending_below(s, ord),
{
    assert(s.push(e).drop_last() =~= s);
    assert(s.push(e).last() == e);
}

/// Enqueueing a device that is not yet queued, then querying its status at
/// once, finds the new row first and reports exactly the position that
/// `enqueue` returned.
pub proof fn lemma_enqueue_then_status(s: Seq<QueueEntry>, e: QueueEntry)
    requires
        !has_device(s, e.device@),
        is_pending(e),
        forall|i: int| #![trigger s[i]] 0 <= i < s.len() ==> s[i].ordinal < e.ordinal,
    ensures
        is_first_device_index(s.push(e), e.device@, s.len() as int),
        count_pending_below(s.push(e), e.ordinal) == count_pending_below(s, e.ordinal),
{
    let t = s.push(e);
    assert(t[s.len() as int] == e);
    assert forall|j: int| #![trigger t[j]] 0 <= j < s.len() implies t[j].device@ != e.device@ by {
        assert(t[j] == s[j]);
    }
    lemma_position_push(s, e, e.ordinal);
}

/// An error row is delivered exactly once: if the device has the one row `i`,
/// the deletion done by the `status` that reported the error leaves no row
/// for the device, so the next query finds it not in the queue.
pub proof fn lemma_error_single_delivery(s: Seq<QueueEntry>, d: Seq<char>, i: int)
    requires
        is_first_device_index(s, d, i),
        forall|j: int| #![trigger s[j]] 0 <= j < s.len() && s[j].device@ == d ==> j == i,
    ensures
        !has_device(s.remove(i), d),
{
    s.remove_ensures(i);
    assert forall|j: int| #![trigger s.remove(i)[j]] 0 <= j < s.remove(i).len() implies s.remove(
        i,
    )[j].device@ != d by {
        let j2 = if j < i { j } else { j + 1 };
        assert(s.remove(i)[j] == s[j2]);
        if s[j2].device@ == d {
            assert(j2 == i);
        }
    }
}

} // verus!

