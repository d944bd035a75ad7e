//! The Chandy–Lamport distributed snapshot protocol.
//!
//! Processes exchange ordinary clock values over per-pair FIFO channels. An
//! initiator records its own history, then broadcasts a marker tagged with an
//! identity derived from its current clock. Any process, on first receiving a
//! given marker identity, records its own history — before processing any
//! later ordinary message — forwards the marker, and starts recording every
//! incoming channel other than the one the marker arrived on. A channel's
//! recording closes when the same marker identity arrives on it; a marker
//! identity seen before changes nothing else. The union of the recorded
//! local states and channel states is a consistent cut.

use vstd::prelude::*;

use crate::order::{HasEvents, LogicalClock, OrdProcess};

verus! {

/// The scalar clock that rides the snapshot protocol's channels: a counter,
/// the owning process, and whether the value is a snapshot marker.
#[derive(Clone, Copy, PartialEq, Eq, Structural, Debug)]
pub struct ChandyLamportClock {
    i: usize,
    clk: usize,
    is_snapshot: bool,
}

impl ChandyLamportClock {
    /// The owning process.
    pub closed spec fn pid(&self) -> int {
        self.i as int
    }

    /// The counter.
    pub closed spec fn count(&self) -> int {
        self.clk as int
    }

    /// Whether the value is a snapshot marker rather than an ordinary event.
    pub closed spec fn is_marker(&self) -> bool {
        self.is_snapshot
    }
}

impl LogicalClock for ChandyLamportClock {
    open spec fn creatable(i: int, n_procs: int) -> bool {
        0 <= i < n_procs
    }

    open spec fn can_extend(&self) -> bool {
        self.count() < usize::MAX
    }

    open spec fn can_merge(&self, other: &Self) -> bool {
        self.count() < usize::MAX && other.count() < usize::MAX
    }

    fn new(i: usize, _n_procs: usize) -> (r: Self)
        ensures
            r.pid() == i,
            r.count() == 0,
            !r.is_marker(),
    {
        ChandyLamportClock { i, clk: 0, is_snapshot: false }
    }

    fn extend(&self) -> (r: Self)
        ensures
            r.pid() == self.pid(),
            r.count() == self.count() + 1,
            !r.is_marker(),
    {
        ChandyLamportClock { i: self.i, clk: self.clk + 1, is_snapshot: false }
    }

    /// Merging takes the larger of the two counters before stepping, so the
    /// merged value strictly follows both the local clock and the received
    /// one; a merge that ignored the sender's counter would break causal
    /// ordering.
    fn merge(&self, other: &Self) -> (r: Self)
        ensures
            r.pid() == self.pid(),
            !r.is_marker(),
            r.count() > self.count(),
            r.count() > other.count(),
            r.count() == (if self.count() >= other.count() {
                self.count()
            } else {
                other.count()
            }) + 1,
    {
        let base = if self.clk >= other.clk {
            self.clk
        } else {
            other.clk
        };
        ChandyLamportClock { i: self.i, clk: base + 1, is_snapshot: false }
    }
}

/// One incoming channel's recording state within a snapshot record.
struct ChannelRecord {
    active: bool,
    msgs: Vec<ChandyLamportClock>,
}

/// One process's contribution to a global snapshot, keyed by the marker that
/// triggered it: the history length at the moment the marker arrived, plus,
/// per incoming channel, the ordinary messages received while that channel's
/// recording was open.
pub struct SnapshotRecord {
    marker: ChandyLamportClock,
    local_len: usize,
    channels: Vec<ChannelRecord>,
}

impl SnapshotRecord {
    /// The identity of the marker that triggered this record.
    pub closed spec fn marker_id(&self) -> ChandyLamportClock {
        self.marker
    }

    /// The recording process's history length at the moment the marker
    /// arrived.
    pub closed spec fn local_count(&self) -> int {
        self.local_len as int
    }

    /// The number of per-channel slots.
    pub closed spec fn width(&self) -> int {
        self.channels@.len() as int
    }

    /// Whether the channel from process `j` is still being recorded.
    pub closed spec fn channel_recording(&self, j: int) -> bool {
        self.channels@[j].active
    }

    /// The ordinary messages recorded so far for the channel from process
    /// `j`.
    pub closed spec fn channel_msgs(&self, j: int) -> Seq<ChandyLamportClock> {
        self.channels@[j].msgs@
    }

    /// Every incoming channel's recording has closed.
    pub open spec fn complete(&self) -> bool {
        forall|j: int| 0 <= j < self.width() ==> !self.channel_recording(j)
    }

    /// The identity of the marker that triggered this record.
    pub fn marker(&self) -> (r: ChandyLamportClock)
        ensures
            r == self.marker_id(),
    {
        self.marker
    }

    /// The recording process's history length at the moment the marker
    /// arrived.
    pub fn recorded_len(&self) -> (r: usize)
        ensures
            r == self.local_count(),
    {
        self.local_len
    }

    /// Whether the channel from process `j` is still being recorded.
    pub fn is_recording(&self, j: usize) -> (r: bool)
        requires
            j < self.width(),
        ensures
            r == self.channel_recording(j as int),
    {
        self.channels[j].active
    }

    /// The messages recorded for the channel from process `j`.
    pub fn channel_messages(&self, j: usize) -> (r: &Vec<ChandyLamportClock>)
        requires
            j < self.width(),
        ensures
            r@ == self.channel_msgs(j as int),
    {
        &self.channels[j].msgs
    }

    /// Whether every incoming channel's recording has closed.
    pub fn is_complete(&self) -> (r: bool)
        ensures
            r == self.complete(),
    {
        let n = self.channels.len();
        let mut j: usize = 0;
        while j < n
            invariant
                n == self.width(),
                j <= n,
                forall|k: int| 0 <= k < j ==> !self.channel_recording(k),
            decreases n - j,
        {
            if self.channels[j].active {
                proof {
                    assert(self.channel_recording(j as int));
                }
                return false;
            }
            j += 1;
        }
        true
    }
}

/// A process participating in the snapshot protocol. Ordinary receives
/// append to its history; markers drive the per-identity recording state.
/// Markers to be forwarded are queued and must be drained with
/// `take_forwards` and broadcast by the caller after every receive.
pub struct ChandyLamportProc {
    i: usize,
    n: usize,
    events: Vec<ChandyLamportClock>,
    records: Vec<SnapshotRecord>,
    outbox: Vec<ChandyLamportClock>,
}

impl ChandyLamportProc {
    /// The snapshot records, oldest first.
    pub closed spec fn records_view(&self) -> Seq<SnapshotRecord> {
        self.records@
    }

    /// The markers queued for forwarding.
    pub closed spec fn outbox_view(&self) -> Seq<ChandyLamportClock> {
        self.outbox@
    }

    /// The number of snapshot records held.
    pub open spec fn records_len(&self) -> int {
        self.records_view().len() as int
    }

    /// The record at position `k`.
    pub open spec fn record_at(&self, k: int) -> SnapshotRecord {
        self.records_view()[k]
    }

    /// A record for marker identity `m` exists.
    pub open spec fn has_record(&self, m: ChandyLamportClock) -> bool {
        exists|k: int| 0 <= k < self.records_len() && (#[trigger] self.record_at(k)).marker_id() == m
    }

    /// The counter the next event builds on: the last recorded clock's, or
    /// zero before any event.
    pub open spec fn base_count(&self) -> int {
        if self.history().len() == 0 {
            0
        } else {
            self.history().last().count()
        }
    }

    /// The marker identity this process would initiate with: its current
    /// clock value, flagged as a snapshot marker.
    pub closed spec fn marker_of(&self) -> ChandyLamportClock {
        ChandyLamportClock {
            i: self.i,
            clk: if self.events@.len() == 0 {
                0usize
            } else {
                self.events@.last().clk
            },
            is_snapshot: true,
        }
    }
}

/// How an ordinary message `m`, arriving on the channel from `from`, changes
/// one snapshot record: it is appended to that channel's recorded state
/// exactly when the channel is still being recorded; nothing else moves.
pub open spec fn record_ordinary_update(
    pre: SnapshotRecord,
    post: SnapshotRecord,
    from: int,
    m: ChandyLamportClock,
) -> bool {
    &&& post.marker_id() == pre.marker_id()
    &&& post.local_count() == pre.local_count()
    &&& post.width() == pre.width()
    &&& forall|j: int| 0 <= j < pre.width()
        ==> #[trigger] post.channel_recording(j) == pre.channel_recording(j)
    &&& forall|j: int| 0 <= j < pre.width() && j != from
        ==> #[trigger] post.channel_msgs(j) == pre.channel_msgs(j)
    &&& post.channel_msgs(from) == (if pre.channel_recording(from) {
        pre.channel_msgs(from).push(m)
    } else {
        pre.channel_msgs(from)
    })
}

/// How a marker arriving on the channel from `from` changes the record it
/// belongs to: that channel's recording closes; everything else stays.
pub open spec fn record_close_update(pre: SnapshotRecord, post: SnapshotRecord, from: int) -> bool {
    &&& post.marker_id() == pre.marker_id()
    &&& post.local_count() == pre.local_count()
    &&& post.width() == pre.width()
    &&& forall|j: int| 0 <= j < pre.width() && j != from
        ==> #[trigger] post.channel_recording(j) == pre.channel_recording(j)
    &&& !post.channel_recording(from)
    &&& forall|j: int| 0 <= j < pre.width()
        ==> #[trigger] post.channel_msgs(j) == pre.channel_msgs(j)
}

/// A freshly opened snapshot record of process `own` for marker `m` that
/// arrived from `from`: the local state is the current history length, every
/// incoming channel other than the triggering one (and the process's own
/// slot) starts recording, and no channel state is recorded yet.
pub open spec fn record_fresh(
    rec: SnapshotRecord,
    m: ChandyLamportClock,
    own: int,
    from: int,
    n_procs: int,
    local: int,
) -> bool {
    &&& rec.marker_id() == m
    &&& rec.local_count() == local
    &&& rec.width() == n_procs
    &&& forall|j: int| 0 <= j < n_procs
        ==> #[trigger] rec.channel_recording(j) == (j != own && j != from)
    &&& forall|j: int| 0 <= j < n_procs ==> (#[trigger] rec.channel_msgs(j)).len() == 0
}

/// How receiving an ordinary message `m` on the channel from `from` changes
/// a process: the merged clock is appended to the history, and the message
/// is added to every snapshot record still recording that channel.
pub open spec fn ordinary_step(
    pre: ChandyLamportProc,
    post: ChandyLamportProc,
    from: int,
    m: ChandyLamportClock,
) -> bool {
    &&& post.history().len() == pre.history().len() + 1
    &&& post.history().drop_last() == pre.history()
    &&& post.history().last().pid() == pre.id()
    &&& !post.history().last().is_marker()
    &&& post.history().last().count() == (if pre.base_count() >= m.count() {
        pre.base_count()
    } else {
        m.count()
    }) + 1
    &&& post.records_len() == pre.records_len()
    &&& forall|k: int| 0 <= k < pre.records_len()
        ==> record_ordinary_update(pre.record_at(k), #[trigger] post.record_at(k), from, m)
    &&& post.outbox_view() == pre.outbox_view()
}

/// How a marker whose identity is already recorded changes a process: only
/// the triggering record's channel from `from` closes. In particular no
/// second record appears: marker delivery is idempotent.
pub open spec fn marker_close_step(
    pre: ChandyLamportProc,
    post: ChandyLamportProc,
    from: int,
    m: ChandyLamportClock,
) -> bool {
    &&& post.history() == pre.history()
    &&& post.outbox_view() == pre.outbox_view()
    &&& post.records_len() == pre.records_len()
    &&& forall|k: int| 0 <= k < pre.records_len() && (#[trigger] pre.record_at(k)).marker_id() != m
        ==> post.record_at(k) == pre.record_at(k)
    &&& forall|k: int| 0 <= k < pre.records_len() && (#[trigger] pre.record_at(k)).marker_id() == m
        ==> record_close_update(pre.record_at(k), post.record_at(k), from)
}

/// How a marker with a fresh identity changes a process: its history length
/// is recorded before any further ordinary message is processed, every other
/// incoming channel starts recording, and the marker is queued so the caller
/// forwards it on every outgoing channel.
pub open spec fn marker_open_step(
    pre: ChandyLamportProc,
    post: ChandyLamportProc,
    from: int,
    m: ChandyLamportClock,
) -> bool {
    &&& post.history() == pre.history()
    &&& post.records_len() == pre.records_len() + 1
    &&& post.records_view().drop_last() == pre.records_view()
    &&& record_fresh(
        post.record_at(pre.records_len()),
        m,
        pre.id(),
        from,
        pre.nprocs(),
        pre.history().len() as int,
    )
    &&& post.outbox_view() == pre.outbox_view().push(m)
}

/// The full receive transition of the snapshot protocol for a value `m`
/// arriving on the channel from `from`.
pub open spec fn cl_step(
    pre: ChandyLamportProc,
    post: ChandyLamportProc,
    from: int,
    m: ChandyLamportClock,
) -> bool {
    if !m.is_marker() {
        ordinary_step(pre, post, from, m)
    } else if pre.has_record(m) {
        marker_close_step(pre, post, from, m)
    } else {
        marker_open_step(pre, post, from, m)
    }
}

/// Idempotence of marker delivery: receiving a marker identity that is
/// already recorded — through redundant fan-out, say — never creates a second
/// snapshot record and never disturbs any record's local state or channel
/// messages; at most the arrival channel's recording closes.
pub proof fn lemma_marker_idempotent(
    pre: ChandyLamportProc,
    post: ChandyLamportProc,
    from: int,
    m: ChandyLamportClock,
)
    requires
        m.is_marker(),
        pre.has_record(m),
        cl_step(pre, post, from, m),
    ensures
        post.records_len() == pre.records_len(),
        post.history() == pre.history(),
        forall|k: int| 0 <= k < pre.records_len()
            ==> (#[trigger] post.record_at(k)).marker_id() == pre.record_at(k).marker_id()
                && post.record_at(k).local_count() == pre.record_at(k).local_count(),
        forall|k: int, j: int|
            #![trigger post.record_at(k).channel_msgs(j)]
            0 <= k < pre.records_len() && 0 <= j < pre.record_at(k).width()
                ==> post.record_at(k).channel_msgs(j) == pre.record_at(k).channel_msgs(j),
{
    assert forall|k: int| 0 <= k < pre.records_len() implies
        (#[trigger] post.record_at(k)).marker_id() == pre.record_at(k).marker_id()
            && post.record_at(k).local_count() == pre.record_at(k).local_count() by {
        if pre.record_at(k).marker_id() == m {
            assert(record_close_update(pre.record_at(k), post.record_at(k), from));
        } else {
            assert(post.record_at(k) == pre.record_at(k));
        }
    }
    assert forall|k: int, j: int|
        #![trigger post.record_at(k).channel_msgs(j)]
        0 <= k < pre.records_len() && 0 <= j < pre.record_at(k).width() implies
        post.record_at(k).channel_msgs(j) == pre.record_at(k).channel_msgs(j) by {
        if pre.record_at(k).marker_id() == m {
            assert(record_close_update(pre.record_at(k), post.record_at(k), from));
        } else {
            assert(post.record_at(k) == pre.record_at(k));
        }
    }
}

/// An ordinary receive preserves the process invariant.
proof fn lemma_ordinary_preserves_inv(
    pre: ChandyLamportProc,
    post: ChandyLamportProc,
    from: int,
    m: ChandyLamportClock,
)
    requires
        pre.inv(),
        post.id() == pre.id(),
        post.nprocs() == pre.nprocs(),
        ordinary_step(pre, post, from, m),
    ensures
        post.inv(),
{
    assert forall|k: int| 0 <= k < post.history().len() - 1 implies post.history()[k]
        == pre.history()[k] by {
        assert(post.history().drop_last()[k] == post.history()[k]);
    }
    assert forall|k: int| 0 <= k < post.history().len() implies
        (#[trigger] post.history()[k]).pid() == post.id()
            && !post.history()[k].is_marker() by {
        if k < post.history().len() - 1 {
            assert(post.history()[k] == pre.history()[k]);
        }
    }
    assert forall|k: int| 0 < k < post.history().len() implies
        (#[trigger] post.history()[k]).count() > post.history()[k - 1].count() by {
        if k < post.history().len() - 1 {
            assert(post.history()[k] == pre.history()[k]);
            assert(post.history()[k - 1] == pre.history()[k - 1]);
        } else {
            assert(post.history()[k - 1] == pre.history()[k - 1]);
            assert(post.history()[k - 1] == pre.history().last());
        }
    }
    assert forall|k: int| 0 <= k < post.records_len() implies
        (#[trigger] post.record_at(k)).width() == post.nprocs()
            && post.record_at(k).local_count() <= post.history().len()
            && post.record_at(k).marker_id().is_marker() by {
        assert(record_ordinary_update(pre.record_at(k), post.record_at(k), from, m));
    }
    assert forall|k1: int, k2: int|
        #![trigger post.record_at(k1), post.record_at(k2)]
        0 <= k1 < k2 < post.records_len() implies post.record_at(k1).marker_id()
        != post.record_at(k2).marker_id() by {
        assert(record_ordinary_update(pre.record_at(k1), post.record_at(k1), from, m));
        assert(record_ordinary_update(pre.record_at(k2), post.record_at(k2), from, m));
    }
}

/// Closing one channel of one record preserves the process invariant.
proof fn lemma_close_preserves_inv(
    pre: ChandyLamportProc,
    post: ChandyLamportProc,
    from: int,
    m: ChandyLamportClock,
)
    requires
        pre.inv(),
        post.id() == pre.id(),
        post.nprocs() == pre.nprocs(),
        marker_close_step(pre, post, from, m),
    ensures
        post.inv(),
{
    assert forall|k: int| 0 <= k < post.records_len() implies
        (#[trigger] post.record_at(k)).width() == post.nprocs()
            && post.record_at(k).local_count() <= post.history().len()
            && post.record_at(k).marker_id().is_marker()
            && post.record_at(k).marker_id() == pre.record_at(k).marker_id() by {
        if pre.record_at(k).marker_id() == m {
            assert(record_close_update(pre.record_at(k), post.record_at(k), from));
        } else {
            assert(post.record_at(k) == pre.record_at(k));
        }
    }
    assert forall|k1: int, k2: int|
        #![trigger post.record_at(k1), post.record_at(k2)]
        0 <= k1 < k2 < post.records_len() implies post.record_at(k1).marker_id()
        != post.record_at(k2).marker_id() by {
        assert(post.record_at(k1).marker_id() == pre.record_at(k1).marker_id());
        assert(post.record_at(k2).marker_id() == pre.record_at(k2).marker_id());
    }
}

/// Opening a record for a marker identity not yet recorded preserves the
/// process invariant.
proof fn lemma_fresh_record_inv(
    pre: ChandyLamportProc,
    post: ChandyLamportProc,
    from: int,
    m: ChandyLamportClock,
)
    requires
        pre.inv(),
        m.is_marker(),
        !pre.has_record(m),
        post.id() == pre.id(),
        post.nprocs() == pre.nprocs(),
        post.history() == pre.history(),
        post.records_len() == pre.records_len() + 1,
        post.records_view().drop_last() == pre.records_view(),
        record_fresh(
            post.record_at(pre.records_len()),
            m,
            pre.id(),
            from,
            pre.nprocs(),
            pre.history().len() as int,
        ),
    ensures
        post.inv(),
{
    assert forall|k: int| 0 <= k < post.records_len() - 1 implies post.record_at(k)
        == pre.record_at(k) by {
        assert(post.records_view().drop_last()[k] == post.records_view()[k]);
    }
    assert forall|k: int| 0 <= k < post.records_len() implies
        (#[trigger] post.record_at(k)).width() == post.nprocs()
            && post.record_at(k).local_count() <= post.history().len()
            && post.record_at(k).marker_id().is_marker() by {
        if k < post.records_len() - 1 {
            assert(post.record_at(k) == pre.record_at(k));
        }
    }
    assert forall|k1: int, k2: int|
        #![trigger post.record_at(k1), post.record_at(k2)]
        0 <= k1 < k2 < post.records_len() implies post.record_at(k1).marker_id()
        != post.record_at(k2).marker_id() by {
        if k2 < post.records_len() - 1 {
            assert(post.record_at(k1) == pre.record_at(k1));
            assert(post.record_at(k2) == pre.record_at(k2));
        } else {
            assert(post.record_at(k1) == pre.record_at(k1));
            assert(post.record_at(k2).marker_id() == m);
        }
    }
}

/// The invariant carries over unchanged state.
proof fn lemma_inv_carryover(pre: ChandyLamportProc, post: ChandyLamportProc)
    requires
        pre.inv(),
        post.id() == pre.id(),
        post.nprocs() == pre.nprocs(),
        post.history() == pre.history(),
        post.records_view() == pre.records_view(),
    ensures
        post.inv(),
{
    assert forall|k: int| 0 <= k < post.records_len() implies
        (#[trigger] post.record_at(k)).width() == post.nprocs()
            && post.record_at(k).local_count() <= post.history().len()
            && post.record_at(k).marker_id().is_marker() by {
        assert(post.record_at(k) == pre.record_at(k));
    }
    assert forall|k1: int, k2: int|
        #![trigger post.record_at(k1), post.record_at(k2)]
        0 <= k1 < k2 < post.records_len() implies post.record_at(k1).marker_id()
        != post.record_at(k2).marker_id() by {
        assert(post.record_at(k1) == pre.record_at(k1));
        assert(post.record_at(k2) == pre.record_at(k2));
    }
}

/// Per-channel recording slots for a fresh record of process `own` whose
/// marker arrived from `from`.
fn make_channels(n_procs: usize, own: usize, from: usize) -> (r: Vec<ChannelRecord>)
    ensures
        r@.len() == n_procs,
        forall|j: int| 0 <= j < n_procs
            ==> (#[trigger] r@[j]).active == (j != own && j != from),
        forall|j: int| 0 <= j < n_procs ==> (#[trigger] r@[j]).msgs@.len() == 0,
{
    let mut r: Vec<ChannelRecord> = Vec::new();
    let mut j: usize = 0;
    while j < n_procs
        invariant
            j <= n_procs,
            r@.len() == j,
            forall|k: int| 0 <= k < j ==> (#[trigger] r@[k]).active == (k != own && k != from),
            forall|k: int| 0 <= k < j ==> (#[trigger] r@[k]).msgs@.len() == 0,
        decreases n_procs - j,
    {
        r.push(ChannelRecord { active: j != own && j != from, msgs: Vec::new() });
        j += 1;
    }
    r
}

/// Appends an ordinary message to a record's channel state when that
/// channel's recording is open.
fn update_record_ordinary(rec: SnapshotRecord, from: usize, m: ChandyLamportClock) -> (r:
    SnapshotRecord)
    requires
        from < rec.width(),
    ensures
        record_ordinary_update(rec, r, from as int, m),
{
    let ghost pre = rec;
    let mut rec = rec;
    if rec.channels[from].active {
        let mut ch = rec.channels.remove(from);
        ch.msgs.push(m);
        rec.channels.insert(from, ch);
        proof {
            assert(rec.channels@ =~= pre.channels@.update(from as int, rec.channels@[from as int]));
        }
    }
    rec
}

/// Closes a record's recording of the channel from `from`.
fn close_channel(rec: SnapshotRecord, from: usize) -> (r: SnapshotRecord)
    requires
        from < rec.width(),
    ensures
        record_close_update(rec, r, from as int),
{
    let ghost pre = rec;
    let mut rec = rec;
    let mut ch = rec.channels.remove(from);
    ch.active = false;
    rec.channels.insert(from, ch);
    proof {
        assert(rec.channels@ =~= pre.channels@.update(from as int, rec.channels@[from as int]));
    }
    rec
}

impl ChandyLamportProc {
    pub fn new(i: usize, n_procs: usize) -> (r: ChandyLamportProc)
        requires
            i < n_procs,
        ensures
            r.inv(),
            r.id() == i,
            r.nprocs() == n_procs,
            r.history().len() == 0,
            r.records_len() == 0,
            r.outbox_view().len() == 0,
    {
        ChandyLamportProc {
            i,
            n: n_procs,
            events: Vec::new(),
            records: Vec::new(),
            outbox: Vec::new(),
        }
    }

    /// The position of the record for marker identity `m`, if one exists.
    fn find_record(&self, m: &ChandyLamportClock) -> (r: Option<usize>)
        ensures
            match r {
                Some(idx) => 0 <= idx < self.records_len()
                    && self.record_at(idx as int).marker_id() == *m,
                None => !self.has_record(*m),
            },
    {
        let total = self.records.len();
        let mut k: usize = 0;
        while k < total
            invariant
                total == self.records_len(),
                k <= total,
                forall|t: int| 0 <= t < k ==> (#[trigger] self.record_at(t)).marker_id() != *m,
            decreases total - k,
        {
            if self.records[k].marker == *m {
                return Some(k);
            }
            k += 1;
        }
        None
    }

    /// The clock of the next local or send event.
    fn next_event(&self) -> (e: ChandyLamportClock)
        requires
            self.ready(),
        ensures
            e.pid() == self.id(),
            !e.is_marker(),
            e.count() == self.base_count() + 1,
    {
        match self.last_event() {
            Some(l) => l.extend(),
            None => {
                let g = ChandyLamportClock::new(self.pid(), self.n_procs());
                g.extend()
            },
        }
    }

    /// Applies one received value `m` that arrived on the channel from
    /// `from`: an ordinary value is merged into the history and recorded on
    /// open channels; a fresh marker opens a record and queues the marker for
    /// forwarding; a known marker closes the channel it arrived on.
    fn absorb(&mut self, from: usize, m: ChandyLamportClock)
        requires
            old(self).inv(),
            from < old(self).nprocs(),
            old(self).history().len() > 0 ==> old(self).history().last().count() < usize::MAX,
            m.count() < usize::MAX,
        ensures
            final(self).inv(),
            final(self).id() == old(self).id(),
            final(self).nprocs() == old(self).nprocs(),
            cl_step(*old(self), *final(self), from as int, m),
    {
        if !m.is_snapshot {
            let e = match self.last_event() {
                Some(l) => l.merge(&m),
                None => {
                    let g = ChandyLamportClock::new(self.pid(), self.n_procs());
                    g.merge(&m)
                },
            };
            self.push_event(e);
            let ghost mid = *self;
            let total = self.records.len();
            let mut updated: Vec<SnapshotRecord> = Vec::new();
            let mut k: usize = 0;
            while k < total
                invariant
                    mid.inv(),
                    from < mid.nprocs(),
                    total == old(self).records_len(),
                    k <= total,
                    updated@.len() == k,
                    self.records@.len() == total - k,
                    forall|t: int| 0 <= t < k ==> record_ordinary_update(
                        old(self).record_at(t),
                        #[trigger] updated@[t],
                        from as int,
                        m,
                    ),
                    forall|t: int| 0 <= t < total - k
                        ==> #[trigger] self.records@[t] == old(self).record_at(k + t),
                    self.i == mid.i,
                    self.n == mid.n,
                    self.events == mid.events,
                    self.outbox == mid.outbox,
                    self.records_view() == mid.records_view().skip(k as int),
                    mid.records_view() == old(self).records_view(),
                    mid.history() == self.history(),
                decreases total - k,
            {
                let rec = self.records.remove(0);
                proof {
                    assert(rec == old(self).record_at(k as int));
                    assert(mid.record_at(k as int) == rec);
                    assert(rec.width() == mid.nprocs());
                    assert(self.records@ =~= mid.records_view().skip(k + 1));
                }
                let rec2 = update_record_ordinary(rec, from, m);
                updated.push(rec2);
                k += 1;
            }
            self.records = updated;
            proof {
                assert(self.history() =~= old(self).history().push(e));
                assert(self.history().drop_last() =~= old(self).history());
                assert(self.history().last() == e);
                assert forall|t: int| 0 <= t < old(self).records_len() implies
                    record_ordinary_update(
                        old(self).record_at(t),
                        #[trigger] self.record_at(t),
                        from as int,
                        m,
                    ) by {
                    assert(self.record_at(t) == updated@[t]);
                }
                assert(self.outbox_view() == old(self).outbox_view());
                assert(ordinary_step(*old(self), *self, from as int, m));
                lemma_ordinary_preserves_inv(*old(self), *self, from as int, m);
            }
        } else {
            let found = self.find_record(&m);
            match found {
                Some(idx) => {
                    let ghost pre = *self;
                    let rec = self.records.remove(idx);
                    let rec2 = close_channel(rec, from);
                    self.records.insert(idx, rec2);
                    proof {
                        assert(self.records@ =~= pre.records_view().update(idx as int, rec2));
                        assert forall|k: int|
                            0 <= k < pre.records_len()
                                && (#[trigger] pre.record_at(k)).marker_id() == m implies
                            record_close_update(pre.record_at(k), self.record_at(k), from as int) by {
                            assert(k == idx);
                        }
                        assert(marker_close_step(pre, *self, from as int, m));
                        lemma_close_preserves_inv(pre, *self, from as int, m);
                    }
                },
                None => {
                    let chans = make_channels(self.n, self.i, from);
                    let rec = SnapshotRecord {
                        marker: m,
                        local_len: self.events.len(),
                        channels: chans,
                    };
                    self.records.push(rec);
                    self.outbox.push(m);
                    proof {
                        assert(self.records_view().drop_last() =~= old(self).records_view());
                        assert(record_fresh(
                            self.record_at(old(self).records_len()),
                            m,
                            old(self).id(),
                            from as int,
                            old(self).nprocs(),
                            old(self).history().len() as int,
                        ));
                        lemma_fresh_record_inv(*old(self), *self, from as int, m);
                    }
                },
            }
        }
    }

    /// Receives one value from the channel from process `from` and applies
    /// it. The caller names the channel it read, so a forwarded marker closes
    /// the right recording; an ordinary value always travels on its owner's
    /// channel.
    pub fn recv_from<F: FnOnce() -> ChandyLamportClock>(&mut self, from: usize, receive: F)
        requires
            old(self).ready(),
            from < old(self).nprocs(),
            call_requires(receive, ()),
            forall|m: ChandyLamportClock|
                call_ensures(receive, (), m) ==> old(self).absorbable(&m),
        ensures
            final(self).inv(),
            final(self).id() == old(self).id(),
            final(self).nprocs() == old(self).nprocs(),
            exists|m: ChandyLamportClock|
                #[trigger] call_ensures(receive, (), m)
                    && cl_step(*old(self), *final(self), from as int, m),
    {
        let m = receive();
        proof {
            assert(call_ensures(receive, (), m));
            assert(old(self).absorbable(&m));
        }
        self.absorb(from, m);
    }

    /// Initiates a global snapshot: records this process's own history under
    /// a marker identity derived from its current clock — unless that
    /// identity is already recorded, in which case nothing changes — and
    /// hands the marker to `broadcast`, which is expected to send it on every
    /// outgoing channel.
    pub fn global_snapshot<F: Fn(ChandyLamportClock)>(&mut self, broadcast: F)
        requires
            old(self).inv(),
            call_requires(broadcast, (old(self).marker_of(),)),
        ensures
            final(self).inv(),
            final(self).id() == old(self).id(),
            final(self).nprocs() == old(self).nprocs(),
            final(self).history() == old(self).history(),
            final(self).outbox_view() == old(self).outbox_view(),
            old(self).has_record(old(self).marker_of())
                ==> final(self).records_view() == old(self).records_view(),
            !old(self).has_record(old(self).marker_of()) ==> {
                &&& final(self).records_len() == old(self).records_len() + 1
                &&& final(self).records_view().drop_last() == old(self).records_view()
                &&& record_fresh(
                    final(self).record_at(old(self).records_len()),
                    old(self).marker_of(),
                    old(self).id(),
                    old(self).id(),
                    old(self).nprocs(),
                    old(self).history().len() as int,
                )
            },
    {
        let base = match self.last_event() {
            Some(l) => l.clk,
            None => 0,
        };
        let marker = ChandyLamportClock { i: self.i, clk: base, is_snapshot: true };
        proof {
            assert(marker == old(self).marker_of());
        }
        let found = self.find_record(&marker);
        if found.is_none() {
            let chans = make_channels(self.n, self.i, self.i);
            let rec = SnapshotRecord {
                marker,
                local_len: self.events.len(),
                channels: chans,
            };
            self.records.push(rec);
            proof {
                assert(self.records_view().drop_last() =~= old(self).records_view());
                assert(record_fresh(
                    self.record_at(old(self).records_len()),
                    marker,
                    old(self).id(),
                    old(self).id(),
                    old(self).nprocs(),
                    old(self).history().len() as int,
                ));
                lemma_fresh_record_inv(*old(self), *self, old(self).id(), marker);
            }
        }
        broadcast(marker);
    }

    /// The snapshot records held so far: for each marker identity, the
    /// recorded prefix of this process's history.
    pub fn snapshots(&self) -> (r: Vec<(ChandyLamportClock, Vec<ChandyLamportClock>)>)
        requires
            self.inv(),
        ensures
            r@.len() == self.records_len(),
            forall|k: int| 0 <= k < self.records_len()
                ==> (#[trigger] r@[k]).0 == self.record_at(k).marker_id()
                    && r@[k].1@ == self.history().take(self.record_at(k).local_count()),
    {
        let total = self.records.len();
        let mut out: Vec<(ChandyLamportClock, Vec<ChandyLamportClock>)> = Vec::new();
        let mut k: usize = 0;
        while k < total
            invariant
                self.inv(),
                total == self.records_len(),
                k <= total,
                out@.len() == k,
                forall|t: int| 0 <= t < k
                    ==> (#[trigger] out@[t]).0 == self.record_at(t).marker_id()
                        && out@[t].1@ == self.history().take(self.record_at(t).local_count()),
            decreases total - k,
        {
            let len_k = self.records[k].local_len;
            proof {
                assert(self.record_at(k as int).local_count() <= self.history().len());
            }
            let mut prefix: Vec<ChandyLamportClock> = Vec::new();
            let mut t: usize = 0;
            while t < len_k
                invariant
                    len_k <= self.history().len(),
                    t <= len_k,
                    prefix@.len() == t,
                    forall|u: int| 0 <= u < t ==> prefix@[u] == self.history()[u],
                decreases len_k - t,
            {
                prefix.push(self.events[t]);
                t += 1;
            }
            proof {
                assert(prefix@ =~= self.history().take(len_k as int));
            }
            let mk = self.records[k].marker;
            out.push((mk, prefix));
            k += 1;
        }
        out
    }

    /// The full snapshot records, channel states included.
    pub fn records(&self) -> (r: &Vec<SnapshotRecord>)
        ensures
            r@ == self.records_view(),
    {
        &self.records
    }

    /// Drains the markers queued for forwarding; the caller must broadcast
    /// each on every outgoing channel.
    pub fn take_forwards(&mut self) -> (r: Vec<ChandyLamportClock>)
        ensures
            r@ == old(self).outbox_view(),
            final(self).outbox_view().len() == 0,
            final(self).history() == old(self).history(),
            final(self).records_view() == old(self).records_view(),
            final(self).id() == old(self).id(),
            final(self).nprocs() == old(self).nprocs(),
            old(self).inv() ==> final(self).inv(),
    {
        let mut out: Vec<ChandyLamportClock> = Vec::new();
        core::mem::swap(&mut self.outbox, &mut out);
        proof {
            if old(self).inv() {
                lemma_inv_carryover(*old(self), *self);
            }
        }
        out
    }
}

impl HasEvents<ChandyLamportClock> for ChandyLamportProc {
    closed spec fn history(&self) -> Seq<ChandyLamportClock> {
        self.events@
    }

    closed spec fn id(&self) -> int {
        self.i as int
    }

    closed spec fn nprocs(&self) -> int {
        self.n as int
    }

    open spec fn inv(&self) -> bool {
        &&& 0 <= self.id() < self.nprocs()
        &&& forall|k: int| 0 <= k < self.history().len()
            ==> (#[trigger] self.history()[k]).pid() == self.id()
                && !self.history()[k].is_marker()
        &&& forall|k: int| 0 < k < self.history().len()
            ==> (#[trigger] self.history()[k]).count() > self.history()[k - 1].count()
        &&& forall|k: int| 0 <= k < self.records_len()
            ==> (#[trigger] self.record_at(k)).width() == self.nprocs()
                && self.record_at(k).local_count() <= self.history().len()
                && self.record_at(k).marker_id().is_marker()
        &&& forall|k1: int, k2: int|
            #![trigger self.record_at(k1), self.record_at(k2)]
            0 <= k1 < k2 < self.records_len()
                ==> self.record_at(k1).marker_id() != self.record_at(k2).marker_id()
    }

    open spec fn accepts(&self, e: &ChandyLamportClock) -> bool {
        &&& self.inv()
        &&& e.pid() == self.id()
        &&& !e.is_marker()
        &&& self.history().len() > 0 ==> e.count() > self.history().last().count()
    }

    fn last_event(&self) -> (r: Option<&ChandyLamportClock>)
        ensures
            match r {
                Some(e) => self.history().len() > 0 && *e == self.history().last(),
                None => self.history().len() == 0,
            },
    {
        if self.events.len() == 0 {
            None
        } else {
            Some(&self.events[self.events.len() - 1])
        }
    }

    fn push_event(&mut self, e: ChandyLamportClock)
        ensures
            final(self).inv(),
            final(self).id() == old(self).id(),
            final(self).nprocs() == old(self).nprocs(),
            final(self).history() == old(self).history().push(e),
            final(self).records_view() == old(self).records_view(),
            final(self).outbox_view() == old(self).outbox_view(),
    {
        self.events.push(e);
        proof {
            assert forall|k: int| 0 <= k < self.records_len() implies
                (#[trigger] self.record_at(k)).width() == self.nprocs()
                    && self.record_at(k).local_count() <= self.history().len()
                    && self.record_at(k).marker_id().is_marker() by {
                assert(self.record_at(k) == old(self).record_at(k));
            }
            assert forall|k1: int, k2: int|
                #![trigger self.record_at(k1), self.record_at(k2)]
                0 <= k1 < k2 < self.records_len() implies
                self.record_at(k1).marker_id() != self.record_at(k2).marker_id() by {
                assert(self.record_at(k1) == old(self).record_at(k1));
                assert(self.record_at(k2) == old(self).record_at(k2));
            }
        }
    }

    fn pid(&self) -> (r: usize)
        ensures
            r == self.id(),
    {
        self.i
    }

    fn n_procs(&self) -> (r: usize)
        ensures
            r == self.nprocs(),
    {
        self.n
    }

    fn events(&self) -> (r: &[ChandyLamportClock])
        ensures
            r@ == self.history(),
    {
        self.events.as_slice()
    }
}

impl OrdProcess<ChandyLamportClock> for ChandyLamportProc {
    open spec fn ready(&self) -> bool {
        &&& self.inv()
        &&& self.history().len() > 0 ==> self.history().last().count() < usize::MAX
    }

    open spec fn absorbable(&self, m: &ChandyLamportClock) -> bool {
        &&& 0 <= m.pid() < self.nprocs()
        &&& m.count() < usize::MAX
    }

    open spec fn may_transmit(&self, e: &ChandyLamportClock) -> bool {
        &&& e.pid() == self.id()
        &&& !e.is_marker()
        &&& e.count() == self.base_count() + 1
    }

    fn exec<F: FnOnce()>(&mut self, work: F)
        ensures
            final(self).inv(),
            final(self).id() == old(self).id(),
            final(self).nprocs() == old(self).nprocs(),
            final(self).history().len() == old(self).history().len() + 1,
            final(self).history().drop_last() == old(self).history(),
            final(self).history().last().pid() == old(self).id(),
            final(self).history().last().count() == old(self).base_count() + 1,
            final(self).records_view() == old(self).records_view(),
            final(self).outbox_view() == old(self).outbox_view(),
    {
        let e = self.next_event();
        self.push_event(e);
        proof {
            assert(self.history().drop_last() =~= old(self).history());
        }
        work();
    }

    fn send<F: FnOnce(ChandyLamportClock)>(&mut self, transmit: F)
        ensures
            final(self).inv(),
            final(self).id() == old(self).id(),
            final(self).nprocs() == old(self).nprocs(),
            final(self).history().len() == old(self).history().len() + 1,
            final(self).history().drop_last() == old(self).history(),
            final(self).history().last().pid() == old(self).id(),
            final(self).history().last().count() == old(self).base_count() + 1,
            final(self).records_view() == old(self).records_view(),
            final(self).outbox_view() == old(self).outbox_view(),
    {
        let e = self.next_event();
        let t = e;
        self.push_event(e);
        proof {
            assert(self.history().drop_last() =~= old(self).history());
            assert(old(self).may_transmit(&t));
        }
        transmit(t);
    }

    /// A receive whose channel is taken to be the received value's owner:
    /// right for every ordinary value, and for a marker arriving straight
    /// from its initiator. A marker forwarded by a third process should be
    /// delivered with `recv_from` instead, naming the forwarding channel.
    fn recv<F: FnOnce() -> ChandyLamportClock>(&mut self, receive: F)
        ensures
            final(self).inv(),
            final(self).id() == old(self).id(),
            final(self).nprocs() == old(self).nprocs(),
            exists|m: ChandyLamportClock|
                #[trigger] call_ensures(receive, (), m)
                    && cl_step(*old(self), *final(self), m.pid(), m),
    {
        let m = receive();
        proof {
            assert(call_ensures(receive, (), m));
            assert(old(self).absorbable(&m));
        }
        self.absorb(m.i, m);
    }

    fn snapshot(&self) -> (r: &[ChandyLamportClock])
        ensures
            r@ == self.history(),
    {
        self.events.as_slice()
    }
}

} // verus!
