//! What reaches a listener: the laws of a stream that goes out chunk by
//! chunk, for the burst buffer of its source and for the queue of a
//! listener that keeps up.

use vstd::prelude::*;
use crate::broadcaster::lemma_broadcast_keeps_wf;
use crate::client::ClientView;
use crate::listener::lemma_with_listener_wf;
use crate::lookup::{lemma_first_index, lemma_first_index_is, lemma_sum_at};
use crate::server::{has_entry, mount_index, ServerView};
use crate::source::{
    count_id, delivered, lemma_burst_is_the_end_of_the_stream, lemma_count_at,
    lemma_count_push, lemma_fan_out, lemma_fan_out_delivers, lemma_seat, seat, trailing,
    SourceView,
};

verus! {

/// The bytes of a list of chunks, one after the other.
pub open spec fn stream_of(chunks: Seq<Seq<u8>>) -> Seq<u8>
    decreases chunks.len(),
{
    if chunks.len() == 0 {
        Seq::empty()
    } else {
        stream_of(chunks.drop_last()) + chunks.last()
    }
}

/// The listener with the identifier `id` among `clients`.
pub open spec fn listener_of(clients: Seq<ClientView>, id: u128) -> ClientView {
    clients[seat(clients, id)]
}

/// The listener with `chunks` queued after what its queue held.
pub open spec fn with_chunks(c: ClientView, chunks: Seq<Seq<u8>>) -> ClientView {
    ClientView {
        queue: c.queue + chunks,
        buffer_size: (c.buffer_size + stream_of(chunks).len()) as usize,
        ..c
    }
}

impl SourceView {
    /// The source after the chunks of a list went out, one after the other.
    pub open spec fn after_chunks(
        self,
        chunks: Seq<Seq<u8>>,
        queue_size: usize,
        burst_size: usize,
    ) -> SourceView
        decreases chunks.len(),
    {
        if chunks.len() == 0 {
            self
        } else {
            self.after_chunks(chunks.drop_last(), queue_size, burst_size).after_broadcast(
                chunks.last(),
                queue_size,
                burst_size,
            )
        }
    }

    /// The source with one more listener.
    pub open spec fn joined_by(self, c: ClientView) -> SourceView {
        SourceView { clients: self.clients.push(c), ..self }
    }
}

impl ServerView {
    /// The server after the source on `mount` produced the chunks of a
    /// list, one after the other.
    pub open spec fn after_feeds(self, mount: Seq<char>, chunks: Seq<Seq<u8>>) -> ServerView
        decreases chunks.len(),
    {
        if chunks.len() == 0 {
            self
        } else {
            self.after_feeds(mount, chunks.drop_last()).after_feed(mount, chunks.last())
        }
    }
}

/// Of listeners of which at most one has the identifier `id`, two that
/// have it are one.
pub proof fn lemma_one_listener(clients: Seq<ClientView>, id: u128, i: int, j: int)
    requires
        count_id(clients, id) <= 1,
        0 <= i < clients.len(),
        0 <= j < clients.len(),
        clients[i].properties.id == id,
        clients[j].properties.id == id,
    ensures
        i == j,
    decreases clients.len(),
{
    let last = clients.len() - 1;
    let rest = clients.drop_last();
    if i < last && j < last {
        lemma_one_listener(rest, id, i, j);
    } else if i < last {
        lemma_count_at(rest, i);
    } else if j < last {
        lemma_count_at(rest, j);
    }
}

/// The burst buffer after a run of chunks is the end of what it held and
/// of the chunks, put together, up to the burst size.
pub proof fn lemma_burst_after_chunks(
    s: SourceView,
    chunks: Seq<Seq<u8>>,
    queue_size: usize,
    burst_size: usize,
)
    requires
        s.burst_buffer.len() <= burst_size,
    ensures
        s.after_chunks(chunks, queue_size, burst_size).burst_buffer == trailing(
            s.burst_buffer + stream_of(chunks),
            burst_size,
        ),
    decreases chunks.len(),
{
    if chunks.len() == 0 {
        assert(s.burst_buffer + stream_of(chunks) =~= s.burst_buffer);
    } else {
        let before = chunks.drop_last();
        lemma_burst_after_chunks(s, before, queue_size, burst_size);
        lemma_burst_is_the_end_of_the_stream(
            s.burst_buffer + stream_of(before),
            chunks.last(),
            burst_size,
        );
        assert((s.burst_buffer + stream_of(before)) + chunks.last() =~= s.burst_buffer
            + stream_of(chunks));
    }
}

/// A listener that takes a chunk is, after it went out, the listener it
/// was, with the chunk at the end of its queue; and it is still the only
/// one with its identifier.
pub proof fn lemma_chunk_reaches_listener(
    clients: Seq<ClientView>,
    blob: Seq<u8>,
    queue_size: usize,
    id: u128,
)
    requires
        count_id(clients, id) == 1,
        listener_of(clients, id).accepts(blob.len(), queue_size),
    ensures
        count_id(delivered(clients, blob, queue_size), id) == 1,
        listener_of(delivered(clients, blob, queue_size), id) == listener_of(
            clients,
            id,
        ).with_blob(blob),
{
    let after = delivered(clients, blob, queue_size);
    lemma_seat(clients, id);
    let k = seat(clients, id);
    let at = lemma_fan_out_delivers(clients, blob, queue_size, k);
    lemma_fan_out(clients, blob, queue_size, id);
    lemma_count_at(after, at);
    lemma_seat(after, id);
    lemma_one_listener(after, id, seat(after, id), at);
}

/// A listener that has room for a run of chunks has, after they went out,
/// all of them at the end of its queue, in order, and nothing else is
/// changed of it.
pub proof fn lemma_chunks_reach_listener(
    s: SourceView,
    chunks: Seq<Seq<u8>>,
    queue_size: usize,
    burst_size: usize,
    id: u128,
)
    requires
        count_id(s.clients, id) == 1,
        !listener_of(s.clients, id).closed,
        listener_of(s.clients, id).buffer_size + stream_of(chunks).len() <= queue_size,
    ensures
        count_id(s.after_chunks(chunks, queue_size, burst_size).clients, id) == 1,
        listener_of(s.after_chunks(chunks, queue_size, burst_size).clients, id) == with_chunks(
            listener_of(s.clients, id),
            chunks,
        ),
    decreases chunks.len(),
{
    let c = listener_of(s.clients, id);
    if chunks.len() == 0 {
        assert(c.queue + chunks =~= c.queue);
    } else {
        let before = chunks.drop_last();
        lemma_chunks_reach_listener(s, before, queue_size, burst_size, id);
        let prev = s.after_chunks(before, queue_size, burst_size);
        lemma_chunk_reaches_listener(prev.clients, chunks.last(), queue_size, id);
        assert((c.queue + before).push(chunks.last()) =~= c.queue + chunks);
    }
}

/// The bytes that wait in a queue are the bytes of its chunks.
pub proof fn lemma_stream_of_added(a: Seq<Seq<u8>>, b: Seq<Seq<u8>>)
    ensures
        stream_of(a + b) == stream_of(a) + stream_of(b),
    decreases b.len(),
{
    if b.len() == 0 {
        assert(a + b =~= a);
        assert(stream_of(a) + stream_of(b) =~= stream_of(a));
    } else {
        lemma_stream_of_added(a, b.drop_last());
        assert((a + b).drop_last() =~= a + b.drop_last());
        assert((stream_of(a) + stream_of(b.drop_last())) + b.last() =~= stream_of(a) + stream_of(
            b,
        ));
    }
}

/// What a listener hears that joins a stream and keeps up with it. A
/// source with an empty burst buffer sends out the chunks `before`; a
/// listener with an empty queue joins and is handed the burst buffer;
/// the chunks `after` go out, for all of which the listener has room.
/// Then the queue of the listener holds the chunks `after` and no
/// others, in order; the burst that it was handed is the end of the
/// stream before it joined, up to the burst size; and the burst with
/// what is queued is one piece of the whole stream that runs to its end.
pub proof fn lemma_listener_hears_the_end_of_the_stream(
    s: SourceView,
    before: Seq<Seq<u8>>,
    after: Seq<Seq<u8>>,
    c: ClientView,
    queue_size: usize,
    burst_size: usize,
)
    requires
        s.burst_buffer.len() == 0,
        c.queue.len() == 0,
        c.buffer_size == 0,
        !c.closed,
        count_id(s.after_chunks(before, queue_size, burst_size).clients, c.properties.id) == 0,
        stream_of(after).len() <= queue_size,
    ensures
        ({
            let joined = s.after_chunks(before, queue_size, burst_size);
            let burst = joined.burst_buffer;
            let end = joined.joined_by(c).after_chunks(after, queue_size, burst_size);
            let heard = burst + stream_of(listener_of(end.clients, c.properties.id).queue);
            let whole = stream_of(before) + stream_of(after);
            &&& listener_of(end.clients, c.properties.id).queue == after
            &&& burst == trailing(stream_of(before), burst_size)
            &&& burst.len() == if stream_of(before).len() <= burst_size {
                stream_of(before).len() as int
            } else {
                burst_size as int
            }
            &&& heard.len() <= whole.len()
            &&& heard == whole.skip(whole.len() - heard.len())
        }),
{
    let id = c.properties.id;
    let joined = s.after_chunks(before, queue_size, burst_size);
    let with_c = joined.joined_by(c);
    lemma_burst_after_chunks(s, before, queue_size, burst_size);
    assert(s.burst_buffer + stream_of(before) =~= stream_of(before));
    lemma_burst_is_the_end_of_the_stream(Seq::empty(), stream_of(before), burst_size);
    assert(Seq::<u8>::empty() + stream_of(before) =~= stream_of(before));
    lemma_count_push(joined.clients, c, id);
    lemma_seat(with_c.clients, id);
    lemma_one_listener(with_c.clients, id, seat(with_c.clients, id), joined.clients.len() as int);
    assert(listener_of(with_c.clients, id) == c);
    lemma_chunks_reach_listener(with_c, after, queue_size, burst_size, id);
    assert(c.queue + after =~= after);
    let burst = joined.burst_buffer;
    let whole = stream_of(before) + stream_of(after);
    let heard = burst + stream_of(after);
    assert(heard =~= whole.skip(whole.len() - heard.len()));
}

/// Feeding a source leaves every source on its mountpoint.
pub proof fn lemma_feed_keeps_mounts(s: ServerView, mount: Seq<char>, data: Seq<u8>, other: Seq<
    char,
>)
    ensures
        s.after_feed(mount, data).sources.len() == s.sources.len(),
        mount_index(s.after_feed(mount, data).sources, other) == mount_index(s.sources, other),
        s.after_feed(mount, data).properties == s.properties,
{
    let t = s.after_feed(mount, data);
    let p = |x: SourceView| x.mountpoint == other;
    lemma_first_index(s.sources, |x: SourceView| x.mountpoint == mount);
    lemma_first_index(s.sources, p);
    let at = mount_index(s.sources, other);
    assert forall|k: int| 0 <= k < t.sources.len() implies (#[trigger] t.sources[k]).mountpoint
        == s.sources[k].mountpoint by {}
    assert forall|k: int| 0 <= k < at implies !p(#[trigger] t.sources[k]) by {
        assert(!p(s.sources[k]));
    }
    lemma_first_index_is(t.sources, p, at);
}

/// What a run of feeds does to the source that is fed is what the run of
/// its chunks does to it: the same listeners with the same queues, and
/// the same burst buffer. Empty chunks are not fed.
pub proof fn lemma_feeds_are_chunks(s: ServerView, mount: Seq<char>, chunks: Seq<Seq<u8>>)
    requires
        mount_index(s.sources, mount) < s.sources.len(),
        forall|k: int| 0 <= k < chunks.len() ==> (#[trigger] chunks[k]).len() > 0,
    ensures
        ({
            let i = mount_index(s.sources, mount);
            let fed = s.after_feeds(mount, chunks).sources[i];
            let sent = s.sources[i].after_chunks(
                chunks,
                s.properties.limits.queue_size,
                s.properties.limits.burst_size_of(mount),
            );
            &&& s.after_feeds(mount, chunks).sources.len() == s.sources.len()
            &&& mount_index(s.after_feeds(mount, chunks).sources, mount) == i
            &&& s.after_feeds(mount, chunks).properties == s.properties
            &&& fed.clients == sent.clients
            &&& fed.burst_buffer == sent.burst_buffer
            &&& fed.mountpoint == sent.mountpoint
        }),
    decreases chunks.len(),
{
    lemma_first_index(s.sources, |x: SourceView| x.mountpoint == mount);
    if chunks.len() > 0 {
        let before = chunks.drop_last();
        assert forall|k: int| 0 <= k < before.len() implies (#[trigger] before[k]).len() > 0 by {
            assert(before[k] == chunks[k]);
        }
        lemma_feeds_are_chunks(s, mount, before);
        let prev = s.after_feeds(mount, before);
        assert(chunks.last() == chunks[chunks.len() - 1]);
        lemma_feed_keeps_mounts(prev, mount, chunks.last(), mount);
    }
}

/// A run of feeds leaves a sound server sound.
pub proof fn lemma_feeds_keep_wf(s: ServerView, mount: Seq<char>, chunks: Seq<Seq<u8>>)
    requires
        s.wf(),
    ensures
        s.after_feeds(mount, chunks).wf(),
    decreases chunks.len(),
{
    if chunks.len() > 0 {
        lemma_feeds_keep_wf(s, mount, chunks.drop_last());
        lemma_broadcast_keeps_wf(s.after_feeds(mount, chunks.drop_last()), mount, chunks.last());
    }
}

/// What a run of chunks does to the listeners and to the burst buffer of
/// a source rests on nothing but the listeners and the burst buffer.
pub proof fn lemma_chunks_rest_on(
    s: SourceView,
    t: SourceView,
    chunks: Seq<Seq<u8>>,
    queue_size: usize,
    burst_size: usize,
)
    requires
        s.clients == t.clients,
        s.burst_buffer == t.burst_buffer,
    ensures
        s.after_chunks(chunks, queue_size, burst_size).clients == t.after_chunks(
            chunks,
            queue_size,
            burst_size,
        ).clients,
        s.after_chunks(chunks, queue_size, burst_size).burst_buffer == t.after_chunks(
            chunks,
            queue_size,
            burst_size,
        ).burst_buffer,
    decreases chunks.len(),
{
    if chunks.len() > 0 {
        lemma_chunks_rest_on(s, t, chunks.drop_last(), queue_size, burst_size);
    }
}

/// What a listener hears that joins a stream on the server and keeps up
/// with it. A source is mounted on `mount` with an empty burst buffer and
/// is fed the chunks `before`; a listener with an unused identifier is
/// attached there and is handed the burst buffer; the source is fed the
/// chunks `after`, which together fit the queue size. Then the listener is
/// attached to that source with the chunks `after` in its queue, in
/// order and no others; the burst that it was handed is the end of the
/// stream before it joined, up to the burst size of the mountpoint; and
/// the burst with what is queued is one piece of the whole stream that
/// runs to its end.
pub proof fn lemma_joining_listener_hears_the_end_of_the_stream(
    s: ServerView,
    mount: Seq<char>,
    before: Seq<Seq<u8>>,
    properties: crate::client::PropertiesView,
    start_time: u64,
    after: Seq<Seq<u8>>,
)
    requires
        s.wf(),
        mount_index(s.sources, mount) < s.sources.len(),
        s.sources[mount_index(s.sources, mount)].burst_buffer.len() == 0,
        forall|k: int| 0 <= k < before.len() ==> (#[trigger] before[k]).len() > 0,
        forall|k: int| 0 <= k < after.len() ==> (#[trigger] after[k]).len() > 0,
        s.after_feeds(mount, before).listener_refusal(mount, properties.id) is None,
        stream_of(after).len() <= s.properties.limits.queue_size,
    ensures
        ({
            let i = mount_index(s.sources, mount);
            let joined = s.after_feeds(mount, before);
            let burst = joined.sources[i].burst_buffer;
            let end = joined.with_listener(mount, properties, start_time).after_feeds(mount, after);
            let listener = listener_of(end.sources[i].clients, properties.id);
            let heard = burst + stream_of(listener.queue);
            let whole = stream_of(before) + stream_of(after);
            &&& end.wf()
            &&& mount_index(end.sources, mount) == i
            &&& count_id(end.sources[i].clients, properties.id) == 1
            &&& listener.properties == properties
            &&& listener.queue == after
            &&& burst == trailing(stream_of(before), s.properties.limits.burst_size_of(mount))
            &&& heard.len() <= whole.len()
            &&& heard == whole.skip(whole.len() - heard.len())
        }),
{
    let i = mount_index(s.sources, mount);
    let id = properties.id;
    let queue_size = s.properties.limits.queue_size;
    let burst_size = s.properties.limits.burst_size_of(mount);
    let by_mount = |x: SourceView| x.mountpoint == mount;
    lemma_first_index(s.sources, by_mount);
    // the feeds before the listener joins
    let joined = s.after_feeds(mount, before);
    lemma_feeds_are_chunks(s, mount, before);
    lemma_feeds_keep_wf(s, mount, before);
    let start = s.sources[i];
    let sent = start.after_chunks(before, queue_size, burst_size);
    // the identifier is new to the source
    assert(count_id(joined.sources[i].clients, id) == 0) by {
        lemma_sum_at(joined.sources, i, |x: SourceView| count_id(x.clients, id));
        if joined.named(id) >= 1 {
            assert(has_entry(joined.clients, id));
        }
    }
    // the listener joins
    let c = ClientView {
        source: joined.sources[i].mountpoint,
        queue: Seq::empty(),
        closed: false,
        buffer_size: 0,
        properties,
        stats: crate::client::Stats { start_time, bytes_sent: 0 },
    };
    let with_c = joined.with_listener(mount, properties, start_time);
    lemma_with_listener_wf(joined, mount, properties, start_time);
    lemma_first_index(joined.sources, by_mount);
    assert forall|k: int| 0 <= k < i implies !by_mount(#[trigger] with_c.sources[k]) by {
        assert(!by_mount(joined.sources[k]));
    }
    lemma_first_index_is(with_c.sources, by_mount, i);
    assert(with_c.sources[i].clients == sent.joined_by(c).clients);
    // the feeds after it joined
    lemma_feeds_are_chunks(with_c, mount, after);
    lemma_feeds_keep_wf(with_c, mount, after);
    lemma_chunks_rest_on(with_c.sources[i], sent.joined_by(c), after, queue_size, burst_size);
    lemma_listener_hears_the_end_of_the_stream(start, before, after, c, queue_size, burst_size);
    lemma_count_push(sent.clients, c, id);
    lemma_seat(sent.joined_by(c).clients, id);
    lemma_one_listener(
        sent.joined_by(c).clients,
        id,
        seat(sent.joined_by(c).clients, id),
        sent.clients.len() as int,
    );
    lemma_chunks_reach_listener(sent.joined_by(c), after, queue_size, burst_size, id);
    assert(c.queue + after =~= after);
}

} // verus!
