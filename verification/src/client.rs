//! A listener: the consumer of one source, with its queue of stream bytes.

use vstd::prelude::*;
use std::collections::VecDeque;
use std::sync::Arc;
use crate::request::opt_text;

verus! {

/// What is counted for a listener.
#[derive(Clone, Copy, Debug, PartialEq, Eq, Structural)]
pub struct Stats {
    pub start_time: u64,
    pub bytes_sent: usize,
}

/// What is known of a listener from its request.
#[derive(Debug, PartialEq, Eq)]
pub struct Properties {
    pub id: u128,
    pub uagent: Option<String>,
    pub metadata: bool,
}

pub struct PropertiesView {
    pub id: u128,
    pub uagent: Option<Seq<char>>,
    pub metadata: bool,
}

impl View for Properties {
    type V = PropertiesView;

    open spec fn view(&self) -> PropertiesView {
        PropertiesView { id: self.id, uagent: opt_text(self.uagent), metadata: self.metadata }
    }
}

impl Clone for Properties {
    fn clone(&self) -> (r: Properties)
        ensures
            r@ == self@,
    {
        Properties {
            id: self.id,
            uagent: match &self.uagent {
                Some(agent) => Some(agent.clone()),
                None => None,
            },
            metadata: self.metadata,
        }
    }
}

/// A listener attached to a source. Stream bytes wait in `queue`, oldest
/// first, until the listener's connection takes them; an empty blob in the
/// queue tells the listener to leave.
pub struct Client {
    /// The mountpoint of the source that feeds this listener.
    pub source: String,
    pub queue: VecDeque<Arc<Vec<u8>>>,
    /// Set once the listener takes no more blobs.
    pub closed: bool,
    /// The bytes that wait in the queue.
    pub buffer_size: usize,
    pub properties: Properties,
    pub stats: Stats,
}

pub struct ClientView {
    pub source: Seq<char>,
    pub queue: Seq<Seq<u8>>,
    pub closed: bool,
    pub buffer_size: usize,
    pub properties: PropertiesView,
    pub stats: Stats,
}

/// The bytes of the blobs of a queue.
pub open spec fn blob_views(queue: Seq<Arc<Vec<u8>>>) -> Seq<Seq<u8>> {
    queue.map_values(|b: Arc<Vec<u8>>| b@)
}

impl View for Client {
    type V = ClientView;

    open spec fn view(&self) -> ClientView {
        ClientView {
            source: self.source@,
            queue: blob_views(self.queue@),
            closed: self.closed,
            buffer_size: self.buffer_size,
            properties: self.properties@,
            stats: self.stats,
        }
    }
}

/// The views of a list of listeners, in order.
pub open spec fn client_views(clients: Seq<Client>) -> Seq<ClientView> {
    clients.map_values(|c: Client| c@)
}

/// The number of bytes in a queue.
pub open spec fn queued_bytes(queue: Seq<Seq<u8>>) -> nat
    decreases queue.len(),
{
    if queue.len() == 0 {
        0
    } else {
        queued_bytes(queue.drop_last()) + queue.last().len()
    }
}

/// The bytes of a queue are those of its first blob and those of the rest.
pub proof fn lemma_queued_bytes_front(queue: Seq<Seq<u8>>)
    requires
        queue.len() > 0,
    ensures
        queued_bytes(queue) == queue[0].len() + queued_bytes(queue.subrange(1, queue.len() as int)),
    decreases queue.len(),
{
    let rest = queue.subrange(1, queue.len() as int);
    if queue.len() == 1 {
        assert(queue.drop_last() =~= Seq::<Seq<u8>>::empty());
        assert(rest =~= Seq::<Seq<u8>>::empty());
    } else {
        lemma_queued_bytes_front(queue.drop_last());
        assert(queue.drop_last().subrange(1, queue.len() - 1) =~= rest.drop_last());
        assert(rest.last() == queue.last());
    }
}

impl ClientView {
    /// The count of waiting bytes is right.
    pub open spec fn wf(self) -> bool {
        self.buffer_size == queued_bytes(self.queue)
    }

    /// Whether `len` more bytes may wait in the queue without passing `queue_size`.
    pub open spec fn accepts(self, len: nat, queue_size: usize) -> bool {
        !self.closed && self.buffer_size + len <= queue_size
    }

    /// The listener with one more blob in its queue.
    pub open spec fn with_blob(self, blob: Seq<u8>) -> ClientView {
        ClientView {
            queue: self.queue.push(blob),
            buffer_size: (self.buffer_size + blob.len()) as usize,
            ..self
        }
    }

    /// The listener told to leave: an empty blob ends its queue, unless the
    /// queue is closed.
    pub open spec fn kicked(self) -> ClientView {
        if self.closed {
            self
        } else {
            ClientView { queue: self.queue.push(Seq::empty()), ..self }
        }
    }

    /// The listener fed from another mountpoint.
    pub open spec fn moved_to(self, mountpoint: Seq<char>) -> ClientView {
        ClientView { source: mountpoint, ..self }
    }

    /// The listener after its oldest blob was taken.
    pub open spec fn after_take(self) -> ClientView {
        if self.queue.len() == 0 {
            self
        } else {
            ClientView {
                queue: self.queue.subrange(1, self.queue.len() as int),
                buffer_size: (self.buffer_size - self.queue[0].len()) as usize,
                ..self
            }
        }
    }

    /// The listener after `n` more bytes went out to it.
    pub open spec fn after_sent(self, n: usize) -> ClientView {
        ClientView {
            stats: Stats {
                bytes_sent: if self.stats.bytes_sent + n > usize::MAX {
                    usize::MAX
                } else {
                    (self.stats.bytes_sent + n) as usize
                },
                ..self.stats
            },
            ..self
        }
    }
}

pub proof fn lemma_with_blob_wf(c: ClientView, blob: Seq<u8>, queue_size: usize)
    requires
        c.wf(),
        c.accepts(blob.len(), queue_size),
    ensures
        c.with_blob(blob).wf(),
{
    assert(c.queue.push(blob).drop_last() =~= c.queue);
}

pub proof fn lemma_kicked_wf(c: ClientView)
    requires
        c.wf(),
    ensures
        c.kicked().wf(),
{
    assert(c.queue.push(Seq::empty()).drop_last() =~= c.queue);
}

pub proof fn lemma_after_take_wf(c: ClientView)
    requires
        c.wf(),
    ensures
        c.after_take().wf(),
        c.queue.len() > 0 ==> c.queue[0].len() <= c.buffer_size,
{
    if c.queue.len() > 0 {
        lemma_queued_bytes_front(c.queue);
    }
}

/// `Arc::clone` of std: one more handle on the same blob.
#[verifier::external_body]
pub(crate) fn share(blob: &Arc<Vec<u8>>) -> (r: Arc<Vec<u8>>)
    ensures
        r == *blob,
{
    Arc::clone(blob)
}

impl Client {
    /// A listener of `source` with nothing queued and nothing sent.
    pub fn new(source: String, properties: Properties, start_time: u64) -> (r: Client)
        ensures
            r@ == (ClientView {
                source: source@,
                queue: Seq::empty(),
                closed: false,
                buffer_size: 0,
                properties: properties@,
                stats: Stats { start_time, bytes_sent: 0 },
            }),
            r@.wf(),
    {
        let r = Client {
            source,
            queue: VecDeque::new(),
            closed: false,
            buffer_size: 0,
            properties,
            stats: Stats { start_time, bytes_sent: 0 },
        };
        assert(blob_views(r.queue@) =~= Seq::<Seq<u8>>::empty());
        r
    }

    /// Queues `blob` for the listener if its queue is open and would then
    /// hold no more than `queue_size` bytes; says whether it did.
    pub fn offer(&mut self, blob: &Arc<Vec<u8>>, queue_size: usize) -> (kept: bool)
        ensures
            kept == old(self)@.accepts(blob@.len(), queue_size),
            final(self)@ == if kept {
                old(self)@.with_blob(blob@)
            } else {
                old(self)@
            },
    {
        let len = blob.len();
        if self.closed || len > queue_size || self.buffer_size > queue_size - len {
            return false;
        }
        self.queue.push_back(share(blob));
        self.buffer_size = self.buffer_size + len;
        assert(blob_views(self.queue@) =~= blob_views(old(self).queue@).push(blob@));
        true
    }

    /// Tells the listener to leave.
    pub fn kick(&mut self)
        ensures
            final(self)@ == old(self)@.kicked(),
    {
        if !self.closed {
            self.queue.push_back(Arc::new(Vec::new()));
            assert(blob_views(self.queue@) =~= blob_views(old(self).queue@).push(Seq::empty()));
        }
    }

    /// Takes the oldest blob out of the queue, if there is one.
    pub fn take(&mut self) -> (r: Option<Arc<Vec<u8>>>)
        requires
            old(self)@.wf(),
        ensures
            final(self)@ == old(self)@.after_take(),
            final(self)@.wf(),
            match r {
                Some(blob) => old(self)@.queue.len() > 0 && blob@ == old(self)@.queue[0],
                None => old(self)@.queue.len() == 0,
            },
    {
        proof {
            lemma_after_take_wf(self@);
        }
        match self.queue.pop_front() {
            Some(blob) => {
                assert(blob@ == blob_views(old(self).queue@)[0]);
                self.buffer_size = self.buffer_size - blob.len();
                assert(blob_views(self.queue@) =~= blob_views(old(self).queue@).subrange(
                    1,
                    old(self).queue@.len() as int,
                ));
                Some(blob)
            },
            None => None,
        }
    }

    /// Counts `n` more bytes as sent; the count stops at the largest number
    /// it can hold.
    pub fn sent(&mut self, n: usize)
        ensures
            final(self)@ == old(self)@.after_sent(n),
    {
        self.stats.bytes_sent = self.stats.bytes_sent.saturating_add(n);
    }

    /// Closes the queue: nothing more is queued for this listener.
    pub fn close(&mut self)
        ensures
            final(self)@ == (ClientView { closed: true, ..old(self)@ }),
    {
        self.closed = true;
    }
}

} // verus!
