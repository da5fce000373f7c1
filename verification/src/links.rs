//! The outbound queues of all connections, each under a number of its own.
//!
//! A connection that lost its session keeps its queue until its socket is done
//! with it: closing one queue can never affect another.
use crate::outbound::{
    ConnGeneration, ControlEvent, ControlModel, Outbound, OutboundItem, OutboundModel,
};
use crate::ringbuf::QueueBounds;
use std::collections::HashMap;
use vstd::prelude::*;

verus! {

broadcast use vstd::std_specs::hash::group_hash_axioms;

/// The outbound queues of all connections.
pub struct Links {
    queues: HashMap<u64, Outbound>,
}

impl View for Links {
    type V = Map<u64, OutboundModel>;

    closed spec fn view(&self) -> Map<u64, OutboundModel> {
        Map::new(
            |link: u64| self.queues@.contains_key(link),
            |link: u64| self.queues@[link]@,
        )
    }
}

/// The queues after one of them was closed.
pub open spec fn closed_link(
    links: Map<u64, OutboundModel>,
    link: Option<u64>,
    code: u16,
) -> Map<u64, OutboundModel> {
    match link {
        Some(link) => if links.contains_key(link) {
            links.insert(link, links[link].closed(code))
        } else {
            links
        },
        None => links,
    }
}

/// The queues after one of them was told something.
pub open spec fn told_link(
    links: Map<u64, OutboundModel>,
    link: Option<u64>,
    event: ControlModel,
) -> Map<u64, OutboundModel> {
    match link {
        Some(link) => if links.contains_key(link) {
            links.insert(link, links[link].told(event))
        } else {
            links
        },
        None => links,
    }
}

/// The queues after one of them was handed PTY bytes.
pub open spec fn fed_link(
    links: Map<u64, OutboundModel>,
    link: Option<u64>,
    bytes: Seq<u8>,
) -> Map<u64, OutboundModel> {
    match link {
        Some(link) => if links.contains_key(link) {
            links.insert(link, links[link].told_bytes(bytes))
        } else {
            links
        },
        None => links,
    }
}

impl Links {
    pub fn new() -> (links: Self)
        ensures
            links@ == Map::<u64, OutboundModel>::empty(),
    {
        let links = Links { queues: HashMap::new() };
        assert(links@ =~= Map::<u64, OutboundModel>::empty());
        links
    }

    /// Open a queue.
    pub fn open(&mut self, link: u64, conn: ConnGeneration, bounds: QueueBounds)
        ensures
            final(self)@ == old(self)@.insert(link, OutboundModel::open(conn, bounds)),
    {
        self.queues.insert(link, Outbound::new(conn, bounds));
        assert(self@ =~= old(self)@.insert(link, OutboundModel::open(conn, bounds)));
    }

    /// Close a queue, where there is one.
    pub fn close(&mut self, link: Option<u64>, code: u16)
        ensures
            final(self)@ == closed_link(old(self)@, link, code),
    {
        if let Some(link) = link {
            if let Some(mut queue) = self.queues.remove(&link) {
                queue.close(code);
                self.queues.insert(link, queue);
            }
        }
        assert(self@ =~= closed_link(old(self)@, link, code));
    }

    /// Queue a control frame, where there is a queue.
    pub fn tell(&mut self, link: Option<u64>, event: ControlEvent)
        ensures
            final(self)@ == told_link(old(self)@, link, event@),
    {
        if let Some(link) = link {
            if let Some(mut queue) = self.queues.remove(&link) {
                queue.push_control(event);
                self.queues.insert(link, queue);
            }
        }
        assert(self@ =~= told_link(old(self)@, link, event@));
    }

    /// Queue PTY bytes, where there is a queue.
    pub fn feed(&mut self, link: Option<u64>, bytes: &[u8])
        ensures
            final(self)@ == fed_link(old(self)@, link, bytes@),
    {
        if let Some(link) = link {
            if let Some(mut queue) = self.queues.remove(&link) {
                queue.push_bytes(bytes);
                self.queues.insert(link, queue);
            }
        }
        assert(self@ =~= fed_link(old(self)@, link, bytes@));
    }

    /// Take the next item out of a queue.
    pub fn next(&mut self, link: u64) -> (item: Option<OutboundItem>)
        ensures
            if old(self)@.contains_key(link) {
                &&& final(self)@ == old(self)@.insert(link, old(self)@[link].after_next())
                &&& match item {
                    Some(item) => old(self)@[link].next_item() == Some(item@),
                    None => old(self)@[link].next_item() is None,
                }
            } else {
                item is None && final(self)@ == old(self)@
            },
    {
        match self.queues.remove(&link) {
            Some(mut queue) => {
                let item = queue.try_next();
                self.queues.insert(link, queue);
                assert(self@ =~= old(self)@.insert(link, old(self)@[link].after_next()));
                item
            },
            None => {
                assert(self@ =~= old(self)@);
                None
            },
        }
    }

    /// Look at a queue.
    pub fn get(&self, link: u64) -> (queue: Option<&Outbound>)
        ensures
            match queue {
                Some(queue) => self@.contains_key(link) && queue@ == self@[link],
                None => !self@.contains_key(link),
            },
    {
        self.queues.get(&link)
    }

    /// Forget a queue.
    pub fn discard(&mut self, link: u64)
        ensures
            final(self)@ == old(self)@.remove(link),
    {
        self.queues.remove(&link);
        assert(self@ =~= old(self)@.remove(link));
    }
}

} // verus!
