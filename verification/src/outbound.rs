//! The path from a session to its client.
//!
//! A connection's outbound queue has a bounded backlog, reports gaps once per
//! burst, and carries a close code that can be set without waiting for the client
//! to drain: a client that never reads delays nothing but itself.
use crate::close_code;
use crate::ringbuf::{ByteQueue, Push, QueueBounds, QueueModel};
use std::collections::VecDeque;
use vstd::prelude::*;

verus! {

/// How many bytes travel in one chunk.
pub const READ_CHUNK: usize = 16 * 1024;

/// Per-connection identity. Distinct from [`crate::Generation`], which fences
/// *tokens*: this fences *connections* inside one generation, and the two must not
/// be conflated (a takeover changes only this one). Zero is no connection.
#[derive(Clone, Copy, Debug, PartialEq, Eq, Structural, PartialOrd, Ord)]
pub struct ConnGeneration(pub u64);

impl Default for ConnGeneration {
    fn default() -> (conn: Self)
        ensures
            conn == ConnGeneration(0),
    {
        ConnGeneration(0)
    }
}

/// Text control frames the server must forward. Bytes travel as binary frames.
#[derive(Clone, Copy, Debug, PartialEq, Eq)]
pub enum ControlEvent {
    /// Sent once at attach: the workspace is ephemeral, and Tier 1 teardown is
    /// best-effort. Both are stated rather than left to be discovered.
    AttachNotice {
        ephemeral_workspace: bool,
        teardown_best_effort: bool,
        externalise_with: &'static str,
    },
    /// Bytes were dropped; the client should clear and redraw.
    Gap { bytes_dropped: u64 },
    /// A TTL is about to force teardown.
    TtlWarning { seconds_remaining: u64, absolute: bool },
    /// First-class "workspace volume full" rather than an opaque write error
    /// inside the terminal.
    WorkspaceVolumeFull { used_kib: u64, budget_kib: u64 },
}

/// The content of a [`ControlEvent`].
#[verifier::ext_equal]
pub enum ControlModel {
    AttachNotice {
        ephemeral_workspace: bool,
        teardown_best_effort: bool,
        externalise_with: Seq<char>,
    },
    Gap { bytes_dropped: u64 },
    TtlWarning { seconds_remaining: u64, absolute: bool },
    WorkspaceVolumeFull { used_kib: u64, budget_kib: u64 },
}

impl View for ControlEvent {
    type V = ControlModel;

    open spec fn view(&self) -> ControlModel {
        match *self {
            ControlEvent::AttachNotice {
                ephemeral_workspace,
                teardown_best_effort,
                externalise_with,
            } => ControlModel::AttachNotice {
                ephemeral_workspace,
                teardown_best_effort,
                externalise_with: externalise_with@,
            },
            ControlEvent::Gap { bytes_dropped } => ControlModel::Gap { bytes_dropped },
            ControlEvent::TtlWarning { seconds_remaining, absolute } => ControlModel::TtlWarning {
                seconds_remaining,
                absolute,
            },
            ControlEvent::WorkspaceVolumeFull {
                used_kib,
                budget_kib,
            } => ControlModel::WorkspaceVolumeFull { used_kib, budget_kib },
        }
    }
}

/// One item for the socket writer.
#[derive(Clone, Debug, PartialEq, Eq)]
pub enum OutboundItem {
    Bytes(Vec<u8>),
    Control(ControlEvent),
    Close(u16),
}

/// The content of an [`OutboundItem`].
#[verifier::ext_equal]
pub enum ItemModel {
    Bytes(Seq<u8>),
    Control(ControlModel),
    Close(u16),
}

impl View for OutboundItem {
    type V = ItemModel;

    open spec fn view(&self) -> ItemModel {
        match *self {
            OutboundItem::Bytes(bytes) => ItemModel::Bytes(bytes@),
            OutboundItem::Control(event) => ItemModel::Control(event@),
            OutboundItem::Close(code) => ItemModel::Close(code),
        }
    }
}

/// What a connection still has to be told.
#[verifier::ext_equal]
pub struct OutboundModel {
    pub conn: ConnGeneration,
    pub queue: QueueModel,
    pub controls: Seq<ControlModel>,
    pub close_code: Option<u16>,
}

impl OutboundModel {
    /// A fresh connection.
    pub open spec fn open(conn: ConnGeneration, bounds: QueueBounds) -> OutboundModel {
        OutboundModel {
            conn,
            queue: QueueModel::empty(bounds),
            controls: Seq::empty(),
            close_code: None,
        }
    }

    /// The connection after it was closed: the first code stays.
    pub open spec fn closed(self, code: u16) -> OutboundModel {
        OutboundModel {
            close_code: match self.close_code {
                Some(first) => Some(first),
                None => Some(code),
            },
            ..self
        }
    }

    /// The connection after PTY bytes were queued. One that fell hopelessly
    /// behind is closed.
    pub open spec fn told_bytes(self, bytes: Seq<u8>) -> OutboundModel {
        let queued = OutboundModel { queue: self.queue.pushed(bytes), ..self };
        if self.queue.push_outcome(bytes) is HardWatermark {
            queued.closed(close_code::SLOW_CLIENT)
        } else {
            queued
        }
    }

    /// The connection after a control frame was queued.
    pub open spec fn told(self, event: ControlModel) -> OutboundModel {
        OutboundModel { controls: self.controls.push(event), ..self }
    }

    /// What the writer gets next: a pending gap, then control frames, then bytes,
    /// then the close code.
    pub open spec fn next_item(self) -> Option<ItemModel> {
        if self.queue.unreported > 0 {
            Some(
                ItemModel::Control(
                    ControlModel::Gap { bytes_dropped: self.queue.unreported as u64 },
                ),
            )
        } else if self.controls.len() > 0 {
            Some(ItemModel::Control(self.controls.first()))
        } else if self.queue.queued.len() > 0 {
            Some(ItemModel::Bytes(self.queue.head(READ_CHUNK as nat)))
        } else {
            match self.close_code {
                Some(code) => Some(ItemModel::Close(code)),
                None => None,
            }
        }
    }

    /// The connection after the writer got its next item.
    pub open spec fn after_next(self) -> OutboundModel {
        if self.queue.unreported > 0 {
            OutboundModel { queue: self.queue.gap_reported(), ..self }
        } else if self.controls.len() > 0 {
            OutboundModel { controls: self.controls.drop_first(), ..self }
        } else if self.queue.queued.len() > 0 {
            OutboundModel { queue: self.queue.taken(READ_CHUNK as nat), ..self }
        } else {
            self
        }
    }

    /// How many items may still come before the close code, at most.
    pub open spec fn undelivered(self) -> nat {
        (if self.queue.unreported > 0 {
            1nat
        } else {
            0nat
        }) + self.controls.len() + self.queue.queued.len()
    }
}

/// A connection's outbound queue: bounded backlog, coalesced gap reporting, and a
/// close code that can be set without waiting for the client to drain.
#[derive(Debug)]
pub struct Outbound {
    conn: ConnGeneration,
    queue: ByteQueue,
    controls: VecDeque<ControlEvent>,
    close_code: Option<u16>,
}

impl View for Outbound {
    type V = OutboundModel;

    closed spec fn view(&self) -> OutboundModel {
        OutboundModel {
            conn: self.conn,
            queue: self.queue@,
            controls: Seq::new(self.controls@.len(), |i: int| self.controls@[i]@),
            close_code: self.close_code,
        }
    }
}

impl Outbound {
    pub fn new(conn: ConnGeneration, bounds: QueueBounds) -> (outbound: Self)
        ensures
            outbound@ == OutboundModel::open(conn, bounds),
    {
        let outbound = Outbound {
            conn,
            queue: ByteQueue::new(bounds),
            controls: VecDeque::new(),
            close_code: None,
        };
        assert(outbound@ =~= OutboundModel::open(conn, bounds));
        outbound
    }

    pub fn conn(&self) -> (conn: ConnGeneration)
        ensures
            conn == self@.conn,
    {
        self.conn
    }

    /// How many bytes wait for the client.
    pub fn backlog(&self) -> (len: usize)
        ensures
            len == self@.queue.queued.len(),
    {
        self.queue.len()
    }

    /// Enqueue PTY bytes. Never blocks and never grows without bound: past the
    /// hard watermark the connection is closed with
    /// [`close_code::SLOW_CLIENT`].
    pub fn push_bytes(&mut self, bytes: &[u8])
        ensures
            final(self)@ == old(self)@.told_bytes(bytes@),
    {
        let outcome = self.queue.push(bytes);
        assert(self@ =~= (OutboundModel { queue: old(self)@.queue.pushed(bytes@), ..old(self)@ }));
        if let Push::HardWatermark { .. } = outcome {
            self.close(close_code::SLOW_CLIENT);
        }
    }

    /// Enqueue a control frame.
    pub fn push_control(&mut self, event: ControlEvent)
        ensures
            final(self)@ == old(self)@.told(event@),
    {
        self.controls.push_back(event);
        assert(self@ =~= old(self)@.told(event@));
    }

    /// Terminate this connection's write path. Idempotent, non-blocking, and
    /// deliberately independent of whether the client ever reads again.
    pub fn close(&mut self, code: u16)
        ensures
            final(self)@ == old(self)@.closed(code),
    {
        if self.close_code.is_none() {
            self.close_code = Some(code);
        }
        assert(self@ =~= old(self)@.closed(code));
    }

    pub fn close_code(&self) -> (code: Option<u16>)
        ensures
            code == self@.close_code,
    {
        self.close_code
    }

    /// Non-blocking drain step, in priority order: pending gap, control frames,
    /// bytes, then the close code.
    pub fn try_next(&mut self) -> (item: Option<OutboundItem>)
        ensures
            final(self)@ == old(self)@.after_next(),
            match item {
                Some(item) => old(self)@.next_item() == Some(item@),
                None => old(self)@.next_item() is None,
            },
    {
        if let Some(dropped) = self.queue.take_unreported_gap() {
            assert(self@ =~= old(self)@.after_next());
            return Some(OutboundItem::Control(ControlEvent::Gap { bytes_dropped: dropped }));
        }
        assert(self.queue@ =~= old(self)@.queue);
        assert(self@ =~= old(self)@);
        if self.controls.len() > 0 {
            assert(old(self)@.controls.first() == old(self).controls@[0]@);
            if let Some(control) = self.controls.pop_front() {
                assert(self@ =~= old(self)@.after_next());
                return Some(OutboundItem::Control(control));
            }
        }
        let bytes = self.queue.take(READ_CHUNK);
        if bytes.len() > 0 {
            assert(self@ =~= old(self)@.after_next());
            return Some(OutboundItem::Bytes(bytes));
        }
        assert(old(self)@.queue.queued.len() == 0);
        assert(self.queue@ =~= old(self)@.queue);
        assert(self@ =~= old(self)@);
        match self.close_code {
            Some(code) => Some(OutboundItem::Close(code)),
            None => None,
        }
    }
}

/// Whoever closes a connection first decides its code, and nothing that is queued
/// later changes it.
pub proof fn law_first_close_code_wins(
    connection: OutboundModel,
    first: u16,
    second: u16,
    bytes: Seq<u8>,
    event: ControlModel,
)
    requires
        connection.close_code is None,
    ensures
        connection.closed(first).closed(second).close_code == Some(first),
        connection.closed(first).told_bytes(bytes).close_code == Some(first),
        connection.closed(first).told(event).close_code == Some(first),
        connection.closed(first).after_next().close_code == Some(first),
{
}

/// Draining ends: every item but the close code leaves less to deliver, so a
/// closed connection delivers all it holds and then its close code, for good.
pub proof fn law_draining_ends_with_the_close_code(connection: OutboundModel)
    ensures
        match connection.next_item() {
            Some(ItemModel::Close(code)) => {
                &&& connection.undelivered() == 0
                &&& connection.close_code == Some(code)
                &&& connection.after_next() == connection
            },
            Some(_) => connection.after_next().undelivered() < connection.undelivered(),
            None => connection.undelivered() == 0 && connection.close_code is None,
        },
{
    assert(READ_CHUNK > 0);
}

/// What a client receives of the byte stream is the stream: the bytes handed out
/// next, followed by the bytes still queued, are the bytes that were queued.
pub proof fn law_bytes_are_delivered_in_order(connection: OutboundModel)
    ensures
        match connection.next_item() {
            Some(ItemModel::Bytes(bytes)) => bytes + connection.after_next().queue.queued
                == connection.queue.queued,
            _ => connection.after_next().queue.queued == connection.queue.queued,
        },
{
    crate::ringbuf::law_queue_is_fifo(connection.queue, READ_CHUNK as nat);
}

/// A backlog never outgrows its bound, and a client whose losses pass the hard
/// watermark is closed, with [`close_code::SLOW_CLIENT`] where nothing closed it
/// before.
pub proof fn law_slow_client_is_bounded_and_closed(
    connection: OutboundModel,
    bytes: Seq<u8>,
    limit: u64,
)
    requires
        connection.queue.bounds.max_dropped_bytes == Some(limit),
    ensures
        connection.told_bytes(bytes).queue.queued.len() <= connection.queue.bounds.capacity_bytes,
        connection.queue.overflow(bytes.len()) > 0 && connection.queue.pushed(bytes).dropped > limit
            && connection.close_code is None ==> connection.told_bytes(bytes).close_code == Some(
            close_code::SLOW_CLIENT,
        ),
        connection.queue.overflow(bytes.len()) == 0 && connection.queue.bounds.capacity_bytes > 0
            ==> connection.told_bytes(bytes).close_code == connection.close_code,
{
    crate::ringbuf::law_queue_is_bounded_and_counts_losses(connection.queue, bytes);
}

/// A connection is told things in a fixed order: a loss first, with its exact size, then
/// its control frames as they came, then its bytes, at most sixteen KiB at a time, and its
/// close code last. Each is told once.
pub proof fn law_connection_is_told_in_order(connection: OutboundModel)
    requires
        connection.queue.unreported <= u64::MAX,
    ensures
        ({
            let next = connection.next_item();
            let after = connection.after_next();
            let lost = connection.queue.unreported;
            let bytes = connection.queue.queued;
            if lost > 0 {
                &&& next == Some(
                    ItemModel::Control(ControlModel::Gap { bytes_dropped: lost as u64 }),
                )
                &&& after.queue.unreported == 0
                &&& after.queue.queued == bytes
                &&& after.controls == connection.controls
            } else if connection.controls.len() > 0 {
                &&& next == Some(ItemModel::Control(connection.controls[0]))
                &&& after.controls == connection.controls.skip(1)
                &&& after.queue == connection.queue
            } else if bytes.len() > 0 {
                &&& next matches Some(ItemModel::Bytes(chunk))
                &&& chunk.len() == if bytes.len() <= 16384 {
                    bytes.len()
                } else {
                    16384
                }
                &&& chunk + after.queue.queued == bytes
            } else {
                &&& next == match connection.close_code {
                    Some(code) => Some(ItemModel::Close(code)),
                    None => None,
                }
                &&& after == connection
            }
        }),
{
    crate::ringbuf::law_take_gives_what_was_asked_for(connection.queue, READ_CHUNK as nat);
    crate::ringbuf::law_queue_is_fifo(connection.queue, READ_CHUNK as nat);
    if connection.controls.len() > 0 {
        assert(connection.controls.drop_first() =~= connection.controls.skip(1));
    }
}

/// What is queued for a connection goes to the end of its kind; a connection is closed
/// as too slow exactly when a push makes it lose more in all than it may.
pub proof fn law_queueing_appends(
    connection: OutboundModel,
    bytes: Seq<u8>,
    event: ControlModel,
    limit: u64,
)
    requires
        connection.queue.queued.len() <= connection.queue.bounds.capacity_bytes,
        connection.queue.dropped + connection.queue.queued.len() + bytes.len() <= u64::MAX,
        connection.queue.bounds.max_dropped_bytes == Some(limit),
        connection.queue.bounds.capacity_bytes > 0,
        connection.close_code is None,
    ensures
        connection.told(event).controls == connection.controls + seq![event],
        connection.told(event).queue == connection.queue,
        connection.told_bytes(bytes).controls == connection.controls,
        connection.queue.queued.len() + bytes.len() <= connection.queue.bounds.capacity_bytes
            ==> connection.told_bytes(bytes).queue.queued == connection.queue.queued + bytes
            && connection.told_bytes(bytes).close_code is None,
        ({
            let lost = connection.queue.queued.len() + bytes.len()
                - connection.queue.bounds.capacity_bytes;
            lost > 0 ==> connection.told_bytes(bytes).close_code == if connection.queue.dropped
                + lost > limit {
                Some(4005u16)
            } else {
                None
            }
        }),
{
    assert(connection.told(event).controls =~= connection.controls + seq![event]);
}

} // verus!
