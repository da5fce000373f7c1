//! Bounded buffers on the PTY-to-client output path.
//!
//! *Every* buffer on that path is bounded, not just retained scrollback:
//!
//! | Buffer | Type | Overflow behaviour |
//! |---|---|---|
//! | retained scrollback | [`RingBuffer`] | drop oldest, cursor advances, drop count exposed |
//! | replay-to-live handoff queue | [`ByteQueue`] | drop oldest, report a `gap` |
//! | per-connection outbound backlog | [`ByteQueue`] | drop oldest, report a `gap`; past the hard watermark the caller closes with [`crate::close_code::SLOW_CLIENT`] |
//!
//! The scrollback cursor is a monotonic *total bytes written* counter, so a
//! client reconnecting with `since=<offset>` receives exactly the bytes it
//! missed. Overflow is never silently sliced: a sliced ANSI stream renders as
//! garbage, so the drop count is surfaced and the caller emits an explicit `gap`
//! control frame instead.
use std::collections::VecDeque;
use vstd::prelude::*;

verus! {

/// The last `n` bytes of `s`, or all of it where it is shorter.
pub open spec fn tail(s: Seq<u8>, n: nat) -> Seq<u8> {
    if s.len() <= n {
        s
    } else {
        s.skip(s.len() - n)
    }
}

/// A counter that stops at the largest 64-bit number.
pub open spec fn saturated(n: nat) -> nat {
    if n <= u64::MAX {
        n
    } else {
        u64::MAX as nat
    }
}

/// Append `bytes` to a bounded queue, evicting from its head, and then from the
/// head of `bytes`, what does not fit. Returns how many bytes were evicted.
fn append_bounded(buf: &mut VecDeque<u8>, capacity: usize, bytes: &[u8]) -> (evicted: usize)
    requires
        old(buf)@.len() <= capacity,
    ensures
        final(buf)@ == tail(old(buf)@ + bytes@, capacity as nat),
        evicted == old(buf)@.len() + bytes@.len() - final(buf)@.len(),
{
    let n: usize = bytes.len();
    let room: usize = capacity - buf.len();
    let overflow: usize = if n > room {
        n - room
    } else {
        0
    };
    let from_retained: usize = if overflow < buf.len() {
        overflow
    } else {
        buf.len()
    };
    let ghost before = buf@;
    let mut k: usize = 0;
    while k < from_retained
        invariant
            0 <= k <= from_retained <= before.len(),
            buf@ == before.skip(k as int),
        decreases from_retained - k,
    {
        let _ = buf.pop_front();
        assert(buf@ =~= before.skip(k + 1));
        k += 1;
    }
    let from_incoming: usize = overflow - from_retained;
    let ghost kept = buf@;
    let mut i: usize = from_incoming;
    assert(bytes@.subrange(from_incoming as int, i as int) =~= Seq::empty());
    assert(kept + bytes@.subrange(from_incoming as int, i as int) =~= kept);
    while i < n
        invariant
            n == bytes@.len(),
            from_incoming <= i <= n,
            buf@ == kept + bytes@.subrange(from_incoming as int, i as int),
        decreases n - i,
    {
        buf.push_back(bytes[i]);
        assert(bytes@.subrange(from_incoming as int, i + 1) =~= bytes@.subrange(
            from_incoming as int,
            i as int,
        ).push(bytes@[i as int]));
        assert(buf@ =~= kept + bytes@.subrange(from_incoming as int, i + 1));
        i += 1;
    }
    assert(buf@ =~= tail(before + bytes@, capacity as nat));
    overflow
}

/// The bytes of a queue from position `start` on.
fn copy_from(buf: &VecDeque<u8>, start: usize) -> (bytes: Vec<u8>)
    requires
        start <= buf@.len(),
    ensures
        bytes@ == buf@.skip(start as int),
{
    let mut bytes: Vec<u8> = Vec::with_capacity(buf.len() - start);
    let mut i: usize = start;
    while i < buf.len()
        invariant
            start <= i <= buf@.len(),
            bytes@ == buf@.subrange(start as int, i as int),
        decreases buf@.len() - i,
    {
        bytes.push(buf[i]);
        assert(bytes@ =~= buf@.subrange(start as int, i + 1));
        i += 1;
    }
    assert(bytes@ =~= buf@.skip(start as int));
    bytes
}

/// Retained scrollback with a monotonic total-bytes-written cursor.
///
/// A capacity of zero disables retention entirely, which also disables `since`
/// replay: every reconnect then starts with a `gap` and a reset.
#[derive(Debug)]
pub struct RingBuffer {
    buf: VecDeque<u8>,
    capacity: usize,
    /// Total bytes ever written. Monotonic; never reset by eviction.
    written: u64,
    dropped: u64,
}

/// Result of a `since=<offset>` replay query.
///
/// The distinction is load-bearing: [`Replay::Contiguous`] bytes can be written
/// straight into the client's emulator, while [`Replay::Gap`] means the client
/// must clear and redraw, because the stream it holds and the bytes it is about
/// to receive are not adjacent.
#[derive(Debug, PartialEq, Eq)]
pub enum Replay {
    /// `bytes` continue exactly at the requested offset.
    Contiguous { bytes: Vec<u8>, to_offset: u64 },
    /// Bytes between the client's cursor and `bytes` were evicted. The caller
    /// must emit a `gap` control frame carrying `bytes_dropped` before writing
    /// `bytes`.
    Gap { bytes_dropped: u64, bytes: Vec<u8>, to_offset: u64 },
}

/// The content of a [`Replay`].
#[verifier::ext_equal]
pub enum ReplayModel {
    Contiguous { bytes: Seq<u8>, to_offset: nat },
    Gap { bytes_dropped: nat, bytes: Seq<u8>, to_offset: nat },
}

impl View for Replay {
    type V = ReplayModel;

    open spec fn view(&self) -> ReplayModel {
        match *self {
            Replay::Contiguous { bytes, to_offset } => ReplayModel::Contiguous {
                bytes: bytes@,
                to_offset: to_offset as nat,
            },
            Replay::Gap { bytes_dropped, bytes, to_offset } => ReplayModel::Gap {
                bytes_dropped: bytes_dropped as nat,
                bytes: bytes@,
                to_offset: to_offset as nat,
            },
        }
    }
}

/// What a [`RingBuffer`] holds.
#[verifier::ext_equal]
pub struct RingModel {
    /// The retained bytes, oldest first.
    pub retained: Seq<u8>,
    pub capacity: nat,
    pub written: nat,
    pub dropped: nat,
}

impl RingModel {
    /// The offset of the oldest retained byte.
    pub open spec fn earliest(self) -> int {
        self.written - self.retained.len()
    }

    /// A fresh buffer of this capacity.
    pub open spec fn empty(capacity: nat) -> RingModel {
        RingModel { retained: Seq::empty(), capacity, written: 0, dropped: 0 }
    }

    /// The buffer after `bytes` were written to it.
    pub open spec fn wrote(self, bytes: Seq<u8>) -> RingModel {
        let retained = tail(self.retained + bytes, self.capacity);
        RingModel {
            retained,
            capacity: self.capacity,
            written: saturated(self.written + bytes.len()),
            dropped: saturated(
                (self.dropped + self.retained.len() + bytes.len() - retained.len()) as nat,
            ),
        }
    }

    /// The buffer after it was cleared: the cursor stays.
    pub open spec fn cleared(self) -> RingModel {
        RingModel {
            retained: Seq::empty(),
            capacity: self.capacity,
            written: self.written,
            dropped: saturated(self.dropped + self.retained.len()),
        }
    }

    /// What a client whose cursor is at `since` is owed.
    pub open spec fn replay(self, since: nat) -> ReplayModel {
        if self.capacity == 0 {
            ReplayModel::Gap {
                bytes_dropped: if self.written >= since {
                    (self.written - since) as nat
                } else {
                    0
                },
                bytes: Seq::empty(),
                to_offset: self.written,
            }
        } else if since > self.written {
            ReplayModel::Gap { bytes_dropped: 0, bytes: self.retained, to_offset: self.written }
        } else if since >= self.earliest() {
            ReplayModel::Contiguous {
                bytes: self.retained.skip(since - self.earliest()),
                to_offset: self.written,
            }
        } else {
            ReplayModel::Gap {
                bytes_dropped: (self.earliest() - since) as nat,
                bytes: self.retained,
                to_offset: self.written,
            }
        }
    }

    /// Whether every byte ever written is either retained or counted as dropped.
    /// Beyond the largest 64-bit number the counters stand still and say nothing.
    pub open spec fn accounted(self) -> bool {
        self.written < u64::MAX ==> self.dropped + self.retained.len() == self.written
    }

    /// Whether this is the state of a buffer through which exactly `stream` has
    /// passed: the cursor counts it, and what is retained is its end.
    pub open spec fn tracks(self, stream: Seq<u8>) -> bool {
        &&& self.written == stream.len()
        &&& self.retained.len() <= stream.len()
        &&& self.retained.len() <= self.capacity
        &&& self.retained == stream.skip(stream.len() - self.retained.len())
    }
}

impl View for RingBuffer {
    type V = RingModel;

    closed spec fn view(&self) -> RingModel {
        RingModel {
            retained: self.buf@,
            capacity: self.capacity as nat,
            written: self.written as nat,
            dropped: self.dropped as nat,
        }
    }
}

impl RingBuffer {
    #[verifier::type_invariant]
    spec fn bounded(self) -> bool {
        &&& self.buf@.len() <= self.capacity
        &&& self.buf@.len() <= self.written
        &&& self@.accounted()
    }

    /// Construct from the operator-facing `scrollback_kib` knob.
    pub fn with_scrollback_kib(kib: usize) -> (ring: Self)
        ensures
            ring@ == RingModel::empty(
                if kib * 1024 <= usize::MAX {
                    (kib * 1024) as nat
                } else {
                    usize::MAX as nat
                },
            ),
    {
        let capacity: usize = match kib.checked_mul(1024) {
            Some(bytes) => bytes,
            None => usize::MAX,
        };
        Self::new(capacity)
    }

    pub fn new(capacity_bytes: usize) -> (ring: Self)
        ensures
            ring@ == RingModel::empty(capacity_bytes as nat),
    {
        let reserve: usize = if capacity_bytes < 64 * 1024 {
            capacity_bytes
        } else {
            64 * 1024
        };
        RingBuffer {
            buf: VecDeque::with_capacity(reserve),
            capacity: capacity_bytes,
            written: 0,
            dropped: 0,
        }
    }

    /// `false` when `scrollback_kib = 0`: nothing is retained and `since` replay
    /// is unavailable.
    pub fn retention_enabled(&self) -> (enabled: bool)
        ensures
            enabled == (self@.capacity > 0),
    {
        self.capacity > 0
    }

    /// Append PTY output. Returns the number of bytes evicted (or, with
    /// retention disabled, discarded) by *this* write, so the caller can emit a
    /// `gap` frame instead of silently slicing the stream.
    pub fn write(&mut self, bytes: &[u8]) -> (evicted: u64)
        ensures
            final(self)@ == old(self)@.wrote(bytes@),
            evicted == old(self)@.retained.len() + bytes@.len() - final(self)@.retained.len(),
            final(self)@.retained.len() <= final(self)@.capacity,
    {
        let mut before = RingBuffer::new(0);
        std::mem::swap(self, &mut before);
        proof {
            use_type_invariant(&before);
            law_every_byte_is_accounted_for(before@, bytes@);
        }
        let RingBuffer { mut buf, capacity, written, dropped } = before;
        let evicted: usize = append_bounded(&mut buf, capacity, bytes);
        let written: u64 = written.saturating_add(bytes.len() as u64);
        let dropped: u64 = dropped.saturating_add(evicted as u64);
        let ghost after = RingModel {
            retained: buf@,
            capacity: capacity as nat,
            written: written as nat,
            dropped: dropped as nat,
        };
        assert(after =~= old(self)@.wrote(bytes@));
        *self = RingBuffer { buf, capacity, written, dropped };
        assert(self@ =~= after);
        evicted as u64
    }

    /// Monotonic cursor: total bytes ever written to this session's stream.
    pub fn total_written(&self) -> (written: u64)
        ensures
            written == self@.written,
    {
        self.written
    }

    /// Total bytes evicted or discarded over the session's lifetime.
    pub fn total_dropped(&self) -> (dropped: u64)
        ensures
            dropped == self@.dropped,
            self@.accounted(),
    {
        proof {
            use_type_invariant(self);
        }
        self.dropped
    }

    /// Offset of the oldest retained byte.
    pub fn earliest_offset(&self) -> (offset: u64)
        ensures
            offset == self@.earliest(),
    {
        proof {
            use_type_invariant(self);
        }
        self.written - self.buf.len() as u64
    }

    pub fn is_empty(&self) -> (empty: bool)
        ensures
            empty == (self@.retained.len() == 0),
    {
        self.buf.len() == 0
    }

    /// Everything currently retained, oldest first.
    pub fn snapshot(&self) -> (bytes: Vec<u8>)
        ensures
            bytes@ == self@.retained,
            bytes@.len() <= self@.capacity,
    {
        proof {
            use_type_invariant(self);
        }
        let bytes = copy_from(&self.buf, 0);
        assert(self.buf@.skip(0) =~= self.buf@);
        bytes
    }

    /// Bytes the client with cursor `since` has not seen.
    ///
    /// `since > total_written` cannot happen for a well-behaved client on this
    /// generation; it is treated as a gap and a reset rather than an error,
    /// because the benign cause is a cursor carried over from a previous
    /// generation (restart-in-place resets the stream).
    pub fn read_since(&self, since: u64) -> (replay: Replay)
        ensures
            replay@ == self@.replay(since as nat),
    {
        proof {
            use_type_invariant(self);
        }
        if !self.retention_enabled() {
            let lost: u64 = if self.written >= since {
                self.written - since
            } else {
                0
            };
            return Replay::Gap { bytes_dropped: lost, bytes: Vec::new(), to_offset: self.written };
        }
        if since > self.written {
            return Replay::Gap {
                bytes_dropped: 0,
                bytes: self.snapshot(),
                to_offset: self.written,
            };
        }
        let earliest: u64 = self.earliest_offset();
        if since >= earliest {
            return Replay::Contiguous {
                bytes: copy_from(&self.buf, (since - earliest) as usize),
                to_offset: self.written,
            };
        }
        Replay::Gap {
            bytes_dropped: earliest - since,
            bytes: self.snapshot(),
            to_offset: self.written,
        }
    }

    /// Drop retained bytes but keep the cursor monotonic. Used on teardown:
    /// buffers are cleared and scrollback never touches disk.
    pub fn clear(&mut self)
        ensures
            final(self)@ == old(self)@.cleared(),
    {
        let mut before = RingBuffer::new(0);
        std::mem::swap(self, &mut before);
        proof {
            use_type_invariant(&before);
            law_every_byte_is_accounted_for(before@, Seq::empty());
        }
        let RingBuffer { buf, capacity, written, dropped } = before;
        let dropped: u64 = dropped.saturating_add(buf.len() as u64);
        *self = RingBuffer { buf: VecDeque::new(), capacity, written, dropped };
        assert(self@ =~= old(self)@.cleared());
    }
}

/// Nothing is lost from the count: whatever is written or cleared, what was dropped
/// and what is retained add up to all that was ever written.
pub proof fn law_every_byte_is_accounted_for(ring: RingModel, bytes: Seq<u8>)
    requires
        ring.accounted(),
    ensures
        ring.wrote(bytes).accounted(),
        ring.cleared().accounted(),
        forall|capacity: nat| #[trigger] RingModel::empty(capacity).accounted(),
{
}

/// Whatever is written, the buffer keeps tracking the stream: the cursor counts
/// every byte ever written and the retained window is the end of the stream.
pub proof fn law_writes_extend_the_stream(ring: RingModel, stream: Seq<u8>, bytes: Seq<u8>)
    requires
        ring.tracks(stream),
        stream.len() + bytes.len() <= u64::MAX,
    ensures
        ring.wrote(bytes).tracks(stream + bytes),
        ring.wrote(bytes).written >= ring.written,
{
    let after = ring.wrote(bytes);
    let whole = stream + bytes;
    assert(after.retained =~= whole.skip(whole.len() - after.retained.len()));
}

/// A buffer that has never been cleared retains as much of the stream as its
/// capacity allows: exactly the last `capacity` bytes.
pub proof fn law_window_is_the_tail(ring: RingModel, stream: Seq<u8>, bytes: Seq<u8>)
    requires
        ring.tracks(stream),
        ring.retained == tail(stream, ring.capacity),
        stream.len() + bytes.len() <= u64::MAX,
    ensures
        ring.wrote(bytes).retained == tail(stream + bytes, ring.capacity),
{
    assert(tail(tail(stream, ring.capacity) + bytes, ring.capacity) =~= tail(
        stream + bytes,
        ring.capacity,
    ));
}

/// Clearing keeps the cursor, and the buffer keeps tracking the stream.
pub proof fn law_clearing_keeps_the_cursor(ring: RingModel, stream: Seq<u8>)
    requires
        ring.tracks(stream),
    ensures
        ring.cleared().tracks(stream),
        ring.cleared().written == ring.written,
{
    assert(stream.skip(stream.len() as int) =~= Seq::empty());
}

/// A client that holds the first `since` bytes of the stream is handed exactly
/// what it missed: the rest of the stream where nothing was evicted, and
/// otherwise the exact number of bytes lost together with all that follows them.
pub proof fn law_replay_is_what_was_missed(ring: RingModel, stream: Seq<u8>, since: nat)
    requires
        ring.tracks(stream),
        since <= stream.len(),
    ensures
        match ring.replay(since) {
            ReplayModel::Contiguous { bytes, to_offset } => {
                &&& bytes == stream.skip(since as int)
                &&& to_offset == stream.len()
            },
            ReplayModel::Gap { bytes_dropped, bytes, to_offset } => {
                &&& bytes == stream.skip((since + bytes_dropped) as int)
                &&& since + bytes_dropped + bytes.len() == stream.len()
                &&& to_offset == stream.len()
            },
        },
{
    match ring.replay(since) {
        ReplayModel::Contiguous { bytes, to_offset } => {
            assert(bytes =~= stream.skip(since as int));
        },
        ReplayModel::Gap { bytes_dropped, bytes, to_offset } => {
            assert(bytes =~= stream.skip((since + bytes_dropped) as int));
        },
    }
}

/// Bounds for a [`ByteQueue`].
#[derive(Debug, Clone, Copy, PartialEq, Eq, Structural)]
pub struct QueueBounds {
    /// Retained bytes cap. Exceeding it evicts the oldest bytes.
    pub capacity_bytes: usize,
    /// Hard watermark on *cumulative* dropped bytes for this queue. Once past it
    /// the client is hopeless rather than momentarily slow, and the caller
    /// disconnects it with [`crate::close_code::SLOW_CLIENT`]. `None` disables
    /// the disconnect.
    pub max_dropped_bytes: Option<u64>,
}

impl QueueBounds {
    pub fn new(capacity_bytes: usize, max_dropped_bytes: Option<u64>) -> (bounds: Self)
        ensures
            bounds.capacity_bytes == capacity_bytes,
            bounds.max_dropped_bytes == max_dropped_bytes,
    {
        QueueBounds { capacity_bytes, max_dropped_bytes }
    }
}

/// Outcome of a [`ByteQueue::push`].
#[derive(Debug, Clone, Copy, PartialEq, Eq, Structural)]
pub enum Push {
    /// Everything fit.
    Accepted,
    /// Oldest bytes were evicted to make room; the caller emits a `gap` frame.
    DroppedOldest { bytes_dropped: u64 },
    /// Cumulative drops passed the hard watermark: disconnect the client with
    /// [`crate::close_code::SLOW_CLIENT`]. Bytes were still enqueued
    /// drop-oldest, so a caller that ignores this stays bounded.
    HardWatermark { bytes_dropped: u64 },
}

/// What a [`ByteQueue`] holds.
#[verifier::ext_equal]
pub struct QueueModel {
    /// The queued bytes, oldest first.
    pub queued: Seq<u8>,
    pub bounds: QueueBounds,
    pub dropped: nat,
    pub unreported: nat,
}

impl QueueModel {
    /// A fresh queue.
    pub open spec fn empty(bounds: QueueBounds) -> QueueModel {
        QueueModel { queued: Seq::empty(), bounds, dropped: 0, unreported: 0 }
    }

    /// How many bytes a push of `n` bytes evicts.
    pub open spec fn overflow(self, n: nat) -> nat {
        if self.queued.len() + n <= self.bounds.capacity_bytes {
            0
        } else {
            (self.queued.len() + n - self.bounds.capacity_bytes) as nat
        }
    }

    /// The queue after a push.
    pub open spec fn pushed(self, bytes: Seq<u8>) -> QueueModel {
        let lost = self.overflow(bytes.len());
        QueueModel {
            queued: tail(self.queued + bytes, self.bounds.capacity_bytes as nat),
            bounds: self.bounds,
            dropped: saturated(self.dropped + lost),
            unreported: saturated(self.unreported + lost),
        }
    }

    /// What a push reports. A queue without capacity always reports a drop.
    pub open spec fn push_outcome(self, bytes: Seq<u8>) -> Push {
        let lost = self.overflow(bytes.len());
        if lost == 0 && self.bounds.capacity_bytes > 0 {
            Push::Accepted
        } else if self.bounds.max_dropped_bytes matches Some(limit) && self.pushed(bytes).dropped
            > limit {
            Push::HardWatermark { bytes_dropped: lost as u64 }
        } else {
            Push::DroppedOldest { bytes_dropped: lost as u64 }
        }
    }

    /// The queue after its first `n` bytes, or all of them, left.
    pub open spec fn taken(self, n: nat) -> QueueModel {
        QueueModel {
            queued: if n < self.queued.len() {
                self.queued.skip(n as int)
            } else {
                Seq::empty()
            },
            ..self
        }
    }

    /// The first `n` bytes, or all of them.
    pub open spec fn head(self, n: nat) -> Seq<u8> {
        if n < self.queued.len() {
            self.queued.take(n as int)
        } else {
            self.queued
        }
    }

    /// The queue after its gap was reported.
    pub open spec fn gap_reported(self) -> QueueModel {
        QueueModel { unreported: 0, ..self }
    }
}

/// A bounded FIFO byte queue used for both the replay-to-live handoff and the
/// per-connection outbound backlog.
///
/// Unreported drops accumulate so a writer that falls behind emits *one* `gap`
/// frame per catch-up burst instead of one per evicting push.
#[derive(Debug)]
pub struct ByteQueue {
    buf: VecDeque<u8>,
    bounds: QueueBounds,
    dropped: u64,
    unreported_dropped: u64,
}

impl View for ByteQueue {
    type V = QueueModel;

    closed spec fn view(&self) -> QueueModel {
        QueueModel {
            queued: self.buf@,
            bounds: self.bounds,
            dropped: self.dropped as nat,
            unreported: self.unreported_dropped as nat,
        }
    }
}

impl ByteQueue {
    #[verifier::type_invariant]
    spec fn bounded(self) -> bool {
        self.buf@.len() <= self.bounds.capacity_bytes
    }

    pub fn new(bounds: QueueBounds) -> (queue: Self)
        ensures
            queue@ == QueueModel::empty(bounds),
    {
        ByteQueue { buf: VecDeque::new(), bounds, dropped: 0, unreported_dropped: 0 }
    }

    /// Enqueue bytes, evicting the oldest where they do not fit.
    pub fn push(&mut self, bytes: &[u8]) -> (outcome: Push)
        ensures
            final(self)@ == old(self)@.pushed(bytes@),
            outcome == old(self)@.push_outcome(bytes@),
            final(self)@.queued.len() <= final(self)@.bounds.capacity_bytes,
    {
        proof {
            use_type_invariant(&*self);
        }
        let mut buf: VecDeque<u8> = VecDeque::new();
        std::mem::swap(&mut buf, &mut self.buf);
        let lost: usize = append_bounded(&mut buf, self.bounds.capacity_bytes, bytes);
        self.buf = buf;
        self.dropped = self.dropped.saturating_add(lost as u64);
        self.unreported_dropped = self.unreported_dropped.saturating_add(lost as u64);
        assert(self@ =~= old(self)@.pushed(bytes@));
        if lost == 0 && self.bounds.capacity_bytes > 0 {
            return Push::Accepted;
        }
        match self.bounds.max_dropped_bytes {
            Some(limit) if self.dropped > limit => Push::HardWatermark {
                bytes_dropped: lost as u64,
            },
            _ => Push::DroppedOldest { bytes_dropped: lost as u64 },
        }
    }

    /// Take up to `max` bytes for the socket.
    pub fn take(&mut self, max: usize) -> (bytes: Vec<u8>)
        ensures
            final(self)@ == old(self)@.taken(max as nat),
            bytes@ == old(self)@.head(max as nat),
    {
        proof {
            use_type_invariant(&*self);
        }
        let mut buf: VecDeque<u8> = VecDeque::new();
        std::mem::swap(&mut buf, &mut self.buf);
        let ghost before = buf@;
        let n: usize = if max < buf.len() {
            max
        } else {
            buf.len()
        };
        let mut bytes: Vec<u8> = Vec::with_capacity(n);
        assert(buf@ =~= before.skip(0));
        while bytes.len() < n
            invariant
                bytes@.len() <= n <= before.len(),
                bytes@ == before.take(bytes@.len() as int),
                buf@ == before.skip(bytes@.len() as int),
            decreases n - bytes@.len(),
        {
            if let Some(byte) = buf.pop_front() {
                bytes.push(byte);
            }
            assert(bytes@ =~= before.take(bytes@.len() as int));
            assert(buf@ =~= before.skip(bytes@.len() as int));
        }
        self.buf = buf;
        assert(bytes@ =~= old(self)@.head(max as nat));
        assert(self@ =~= old(self)@.taken(max as nat));
        bytes
    }

    /// Drop count not yet surfaced to the client, cleared by this call so exactly
    /// one `gap` frame is emitted per burst.
    pub fn take_unreported_gap(&mut self) -> (gap: Option<u64>)
        ensures
            final(self)@ == old(self)@.gap_reported(),
            match gap {
                Some(n) => n == old(self)@.unreported && n > 0,
                None => old(self)@.unreported == 0,
            },
    {
        proof {
            use_type_invariant(&*self);
        }
        let n: u64 = self.unreported_dropped;
        self.unreported_dropped = 0;
        assert(self@ =~= old(self)@.gap_reported());
        if n == 0 {
            None
        } else {
            Some(n)
        }
    }

    pub fn len(&self) -> (len: usize)
        ensures
            len == self@.queued.len(),
            len <= self@.bounds.capacity_bytes,
    {
        proof {
            use_type_invariant(self);
        }
        self.buf.len()
    }

    pub fn is_empty(&self) -> (empty: bool)
        ensures
            empty == (self@.queued.len() == 0),
    {
        self.buf.len() == 0
    }
}

/// A queue never outgrows its capacity, and no byte is lost uncounted: what goes
/// in is either queued or evicted, and eviction takes the oldest bytes first.
pub proof fn law_queue_is_bounded_and_counts_losses(queue: QueueModel, bytes: Seq<u8>)
    ensures
        queue.pushed(bytes).queued.len() <= queue.bounds.capacity_bytes,
        queue.pushed(bytes).queued.len() + queue.overflow(bytes.len()) == queue.queued.len()
            + bytes.len(),
        queue.pushed(bytes).queued == (queue.queued + bytes).skip(
            queue.overflow(bytes.len()) as int,
        ),
{
    assert(queue.pushed(bytes).queued =~= (queue.queued + bytes).skip(
        queue.overflow(bytes.len()) as int,
    ));
}

/// Two evicting pushes in a row are reported as one gap that counts both.
pub proof fn law_gaps_coalesce(queue: QueueModel, first: Seq<u8>, second: Seq<u8>)
    requires
        queue.unreported == 0,
        queue.overflow(first.len()) + queue.pushed(first).overflow(second.len()) <= u64::MAX,
    ensures
        queue.pushed(first).pushed(second).unreported == queue.overflow(first.len()) + queue.pushed(
            first,
        ).overflow(second.len()),
{
}

/// Taking bytes keeps them in order: what was taken, followed by what is left,
/// is what was queued.
pub proof fn law_queue_is_fifo(queue: QueueModel, n: nat)
    ensures
        queue.head(n) + queue.taken(n).queued == queue.queued,
{
    assert(queue.head(n) + queue.taken(n).queued =~= queue.queued);
}

/// A write keeps as much as fits and no less: what is retained afterwards is the end of
/// what was retained before and what was written, as long as the capacity allows. The
/// counters say how much passed and how much was let go.
pub proof fn law_write_keeps_all_that_fits(ring: RingModel, bytes: Seq<u8>)
    ensures
        ({
            let all = ring.retained + bytes;
            let after = ring.wrote(bytes);
            let kept = after.retained.len();
            &&& kept == if all.len() <= ring.capacity {
                all.len()
            } else {
                ring.capacity
            }
            &&& after.retained == all.subrange(all.len() - kept, all.len() as int)
            &&& after.capacity == ring.capacity
            &&& ring.written + bytes.len() <= u64::MAX ==> after.written == ring.written
                + bytes.len()
            &&& ring.dropped + all.len() - kept <= u64::MAX ==> after.dropped == ring.dropped
                + all.len() - kept
        }),
        ring.cleared().retained.len() == 0,
        ring.cleared().capacity == ring.capacity,
        ring.cleared().written == ring.written,
        ring.dropped + ring.retained.len() <= u64::MAX ==> ring.cleared().dropped == ring.dropped
            + ring.retained.len(),
{
    let all = ring.retained + bytes;
    let after = ring.wrote(bytes);
    assert(after.retained =~= all.subrange(all.len() - after.retained.len(), all.len() as int));
}

/// A cursor that lies within what is retained is served without a break from exactly
/// there; one that lies before it is told how many bytes are gone and gets all that is
/// left; one from beyond the stream gets all that is left; and where nothing is ever
/// retained, everything since the cursor is gone.
pub proof fn law_cursor_is_served_from_where_it_stands(ring: RingModel, since: nat)
    requires
        ring.retained.len() <= ring.written,
        ring.retained.len() <= ring.capacity,
    ensures
        ({
            let oldest = ring.written - ring.retained.len();
            ring.replay(since) == if ring.capacity > 0 && oldest <= since && since <= ring.written {
                ReplayModel::Contiguous {
                    bytes: ring.retained.subrange(since - oldest, ring.retained.len() as int),
                    to_offset: ring.written,
                }
            } else {
                ReplayModel::Gap {
                    bytes_dropped: (if since > ring.written {
                        0
                    } else {
                        oldest - since
                    }) as nat,
                    bytes: ring.retained,
                    to_offset: ring.written,
                }
            }
        }),
{
    let oldest = ring.written - ring.retained.len();
    if ring.capacity == 0 {
        assert(ring.retained =~= Seq::empty());
    }
    if ring.capacity > 0 && oldest <= since && since <= ring.written {
        assert(ring.retained.skip(since - oldest) =~= ring.retained.subrange(
            since - oldest,
            ring.retained.len() as int,
        ));
    }
}

/// A push keeps the newest bytes, as many as fit, lets go of the oldest and of nothing
/// more, and counts what went. It says so: everything fit, or so many bytes went, or the
/// client has now lost more than it may.
pub proof fn law_push_lets_go_of_the_oldest_only(queue: QueueModel, bytes: Seq<u8>)
    requires
        queue.queued.len() <= queue.bounds.capacity_bytes,
        queue.dropped + queue.queued.len() + bytes.len() <= u64::MAX,
        queue.unreported + queue.queued.len() + bytes.len() <= u64::MAX,
    ensures
        ({
            let all = queue.queued + bytes;
            let after = queue.pushed(bytes);
            let room = queue.bounds.capacity_bytes;
            let lost = if all.len() <= room {
                0
            } else {
                all.len() - room
            };
            &&& after.queued == all.subrange(lost, all.len() as int)
            &&& after.bounds == queue.bounds
            &&& after.dropped == queue.dropped + lost
            &&& after.unreported == queue.unreported + lost
            &&& queue.push_outcome(bytes) == if room > 0 && lost == 0 {
                Push::Accepted
            } else if queue.bounds.max_dropped_bytes is Some && queue.dropped + lost
                > queue.bounds.max_dropped_bytes->0 {
                Push::HardWatermark { bytes_dropped: lost as u64 }
            } else {
                Push::DroppedOldest { bytes_dropped: lost as u64 }
            }
        }),
        queue.gap_reported().unreported == 0,
        queue.gap_reported().queued == queue.queued,
        queue.gap_reported().dropped == queue.dropped,
{
    let all = queue.queued + bytes;
    let after = queue.pushed(bytes);
    let lost = all.len() - after.queued.len();
    assert(after.queued =~= all.subrange(lost, all.len() as int));
}

/// A socket that asks for some bytes gets that many, or all there are, from the front.
pub proof fn law_take_gives_what_was_asked_for(queue: QueueModel, n: nat)
    ensures
        ({
            let given: int = if n <= queue.queued.len() {
                n as int
            } else {
                queue.queued.len() as int
            };
            &&& queue.head(n) == queue.queued.subrange(0, given)
            &&& queue.taken(n).queued == queue.queued.subrange(given, queue.queued.len() as int)
            &&& queue.taken(n).dropped == queue.dropped
            &&& queue.taken(n).unreported == queue.unreported
        }),
{
    let given: int = if n <= queue.queued.len() {
        n as int
    } else {
        queue.queued.len() as int
    };
    assert(queue.head(n) =~= queue.queued.subrange(0, given));
    assert(queue.taken(n).queued =~= queue.queued.subrange(given, queue.queued.len() as int));
}

} // verus!
