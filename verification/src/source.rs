//! A source: one live stream with its metadata, its burst buffer and the
//! listeners attached to it; and the fan-out of a chunk to those listeners.

use vstd::prelude::*;
use std::sync::Arc;
use crate::client::{client_views, lemma_kicked_wf, lemma_with_blob_wf, Client, ClientView};
use crate::icy::{
    get_metadata_vec, metadata_block, opt_metadata, Metadata, MetadataView, Properties,
    PropertiesView,
};
use crate::lookup::{first_index, lemma_first_index, lemma_first_index_is};
use crate::request::opt_text;
use crate::text::append;

verus! {

/// What is counted for a source.
#[derive(Clone, Copy, Debug, PartialEq, Eq, Structural)]
pub struct Stats {
    pub start_time: u64,
    pub bytes_read: usize,
    pub peak_listeners: usize,
}

/// The limits that hold for one mountpoint.
#[derive(Clone, Copy, Debug, PartialEq, Eq, Structural)]
pub struct Limits {
    pub clients: usize,
    pub burst_size: usize,
    pub source_timeout: u64,
}

/// A live stream bound to a mountpoint.
pub struct Source {
    pub mountpoint: String,
    pub properties: Properties,
    pub metadata: Option<Metadata>,
    /// The block that encodes `metadata`.
    pub metadata_vec: Vec<u8>,
    pub clients: Vec<Client>,
    /// The most recent bytes of the stream, for listeners that join.
    pub burst_buffer: Vec<u8>,
    pub stats: Stats,
    /// The mountpoint that takes the listeners over when this source ends.
    pub fallback: Option<String>,
    /// Set to ask the feeder of this source to stop; never cleared.
    pub disconnect_flag: bool,
    /// Whether the stream is pulled from another server.
    pub relay: bool,
}

pub struct SourceView {
    pub mountpoint: Seq<char>,
    pub properties: PropertiesView,
    pub metadata: Option<MetadataView>,
    pub metadata_vec: Seq<u8>,
    pub clients: Seq<ClientView>,
    pub burst_buffer: Seq<u8>,
    pub stats: Stats,
    pub fallback: Option<Seq<char>>,
    pub disconnect_flag: bool,
    pub relay: bool,
}

impl View for Source {
    type V = SourceView;

    open spec fn view(&self) -> SourceView {
        SourceView {
            mountpoint: self.mountpoint@,
            properties: self.properties@,
            metadata: opt_metadata(self.metadata),
            metadata_vec: self.metadata_vec@,
            clients: client_views(self.clients@),
            burst_buffer: self.burst_buffer@,
            stats: self.stats,
            fallback: opt_text(self.fallback),
            disconnect_flag: self.disconnect_flag,
            relay: self.relay,
        }
    }
}

/// The views of a list of sources, in order.
pub open spec fn source_views(sources: Seq<Source>) -> Seq<SourceView> {
    sources.map_values(|s: Source| s@)
}

/// The last `n` bytes of `s`, or all of `s` where it has no more than `n`.
pub open spec fn trailing(s: Seq<u8>, n: usize) -> Seq<u8> {
    if s.len() <= n {
        s
    } else {
        s.skip(s.len() - n)
    }
}

/// The listeners that take `blob`, each with `blob` queued, in order.
pub open spec fn delivered(clients: Seq<ClientView>, blob: Seq<u8>, queue_size: usize) -> Seq<
    ClientView,
>
    decreases clients.len(),
{
    if clients.len() == 0 {
        clients
    } else {
        let before = delivered(clients.drop_last(), blob, queue_size);
        if clients.last().accepts(blob.len(), queue_size) {
            before.push(clients.last().with_blob(blob))
        } else {
            before
        }
    }
}

/// The listeners that do not take a blob of `len` bytes, each told to leave, in order.
pub open spec fn evicted(clients: Seq<ClientView>, len: nat, queue_size: usize) -> Seq<ClientView>
    decreases clients.len(),
{
    if clients.len() == 0 {
        clients
    } else {
        let before = evicted(clients.drop_last(), len, queue_size);
        if clients.last().accepts(len, queue_size) {
            before
        } else {
            before.push(clients.last().kicked())
        }
    }
}

/// How many of `clients` have the identifier `id`.
pub open spec fn count_id(clients: Seq<ClientView>, id: u128) -> nat
    decreases clients.len(),
{
    if clients.len() == 0 {
        0
    } else {
        count_id(clients.drop_last(), id) + if clients.last().properties.id == id {
            1nat
        } else {
            0nat
        }
    }
}

/// Every listener is sound in itself and names `mountpoint` as its source.
pub open spec fn all_fed_by(clients: Seq<ClientView>, mountpoint: Seq<char>) -> bool {
    forall|j: int|
        0 <= j < clients.len() ==> (#[trigger] clients[j]).wf() && clients[j].source == mountpoint
}

impl SourceView {
    /// The metadata block is that of the metadata, and every attached
    /// listener names this source.
    pub open spec fn wf(self) -> bool {
        &&& self.metadata_vec == metadata_block(self.metadata)
        &&& all_fed_by(self.clients, self.mountpoint)
    }

    /// The source after `chunk` went out: the listeners that took it, and
    /// the burst buffer moved on.
    pub open spec fn after_broadcast(
        self,
        chunk: Seq<u8>,
        queue_size: usize,
        burst_size: usize,
    ) -> SourceView {
        SourceView {
            clients: delivered(self.clients, chunk, queue_size),
            burst_buffer: trailing(self.burst_buffer + chunk, burst_size),
            ..self
        }
    }

    /// The source with other metadata.
    pub open spec fn with_metadata(self, metadata: Option<MetadataView>) -> SourceView {
        SourceView { metadata, metadata_vec: metadata_block(metadata), ..self }
    }
}

/// A listener at some index is counted.
pub proof fn lemma_count_at(clients: Seq<ClientView>, j: int)
    requires
        0 <= j < clients.len(),
    ensures
        count_id(clients, clients[j].properties.id) >= 1,
    decreases clients.len(),
{
    if j < clients.len() - 1 {
        lemma_count_at(clients.drop_last(), j);
    }
}

/// A listener that is counted stands at some index.
pub proof fn lemma_count_witness(clients: Seq<ClientView>, id: u128) -> (j: int)
    requires
        count_id(clients, id) >= 1,
    ensures
        0 <= j < clients.len(),
        clients[j].properties.id == id,
    decreases clients.len(),
{
    if clients.last().properties.id == id {
        clients.len() - 1
    } else {
        lemma_count_witness(clients.drop_last(), id)
    }
}

/// Counting over two lists put together.
pub proof fn lemma_count_add(a: Seq<ClientView>, b: Seq<ClientView>, id: u128)
    ensures
        count_id(a + b, id) == count_id(a, id) + count_id(b, id),
    decreases b.len(),
{
    if b.len() == 0 {
        assert(a + b =~= a);
    } else {
        lemma_count_add(a, b.drop_last(), id);
        assert((a + b).drop_last() =~= a + b.drop_last());
    }
}

/// Counting after one more listener.
pub proof fn lemma_count_push(a: Seq<ClientView>, c: ClientView, id: u128)
    ensures
        count_id(a.push(c), id) == count_id(a, id) + if c.properties.id == id {
            1nat
        } else {
            0nat
        },
{
    assert(a.push(c).drop_last() =~= a);
}

/// Counting after the listener at `j` left.
pub proof fn lemma_count_remove(a: Seq<ClientView>, j: int, id: u128)
    requires
        0 <= j < a.len(),
    ensures
        count_id(a.remove(j), id) + (if a[j].properties.id == id {
            1nat
        } else {
            0nat
        }) == count_id(a, id),
{
    let left = a.take(j);
    let right = a.skip(j + 1);
    assert(a.remove(j) =~= left + right);
    assert(a =~= left.push(a[j]) + right);
    lemma_count_add(left, right, id);
    lemma_count_add(left.push(a[j]), right, id);
    lemma_count_push(left, a[j], id);
}

/// A chunk parts the listeners in two: each is delivered to or evicted.
pub proof fn lemma_fan_out(clients: Seq<ClientView>, blob: Seq<u8>, queue_size: usize, id: u128)
    ensures
        count_id(delivered(clients, blob, queue_size), id) + count_id(
            evicted(clients, blob.len(), queue_size),
            id,
        ) == count_id(clients, id),
    decreases clients.len(),
{
    if clients.len() > 0 {
        lemma_fan_out(clients.drop_last(), blob, queue_size, id);
        let c = clients.last();
        if c.accepts(blob.len(), queue_size) {
            lemma_count_push(
                delivered(clients.drop_last(), blob, queue_size),
                c.with_blob(blob),
                id,
            );
        } else {
            lemma_count_push(evicted(clients.drop_last(), blob.len(), queue_size), c.kicked(), id);
        }
    }
}

/// The listeners that took a chunk, and those that did not, stay sound and
/// keep naming their source.
pub proof fn lemma_fan_out_fed(
    clients: Seq<ClientView>,
    blob: Seq<u8>,
    queue_size: usize,
    mountpoint: Seq<char>,
)
    requires
        all_fed_by(clients, mountpoint),
    ensures
        all_fed_by(delivered(clients, blob, queue_size), mountpoint),
        all_fed_by(evicted(clients, blob.len(), queue_size), mountpoint),
        delivered(clients, blob, queue_size).len() <= clients.len(),
    decreases clients.len(),
{
    if clients.len() > 0 {
        let c = clients.last();
        assert(c == clients[clients.len() - 1]);
        assert forall|j: int| 0 <= j < clients.drop_last().len() implies (
        #[trigger] clients.drop_last()[j]).wf() && clients.drop_last()[j].source == mountpoint by {
            assert(clients.drop_last()[j] == clients[j]);
        }
        lemma_fan_out_fed(clients.drop_last(), blob, queue_size, mountpoint);
        if c.accepts(blob.len(), queue_size) {
            lemma_with_blob_wf(c, blob, queue_size);
        } else {
            lemma_kicked_wf(c);
        }
    }
}

/// A listener that takes a chunk is attached afterwards as before, with
/// the chunk at the end of its queue.
pub proof fn lemma_fan_out_delivers(
    clients: Seq<ClientView>,
    blob: Seq<u8>,
    queue_size: usize,
    j: int,
) -> (k: int)
    requires
        0 <= j < clients.len(),
        clients[j].accepts(blob.len(), queue_size),
    ensures
        0 <= k < delivered(clients, blob, queue_size).len(),
        delivered(clients, blob, queue_size)[k] == clients[j].with_blob(blob),
    decreases clients.len(),
{
    let before = delivered(clients.drop_last(), blob, queue_size);
    if j == clients.len() - 1 {
        before.len() as int
    } else {
        lemma_fan_out_delivers(clients.drop_last(), blob, queue_size, j)
    }
}

/// A listener that does not take a chunk is among the evicted ones
/// afterwards, told to leave.
pub proof fn lemma_fan_out_evicts(
    clients: Seq<ClientView>,
    blob: Seq<u8>,
    queue_size: usize,
    j: int,
) -> (k: int)
    requires
        0 <= j < clients.len(),
        !clients[j].accepts(blob.len(), queue_size),
    ensures
        0 <= k < evicted(clients, blob.len(), queue_size).len(),
        evicted(clients, blob.len(), queue_size)[k] == clients[j].kicked(),
    decreases clients.len(),
{
    let before = evicted(clients.drop_last(), blob.len(), queue_size);
    if j == clients.len() - 1 {
        before.len() as int
    } else {
        lemma_fan_out_evicts(clients.drop_last(), blob, queue_size, j)
    }
}

/// The burst buffer after two chunks is the end of the two chunks put
/// together: what is cut off after the first is not missed after the second.
pub proof fn lemma_burst_is_the_end_of_the_stream(a: Seq<u8>, b: Seq<u8>, n: usize)
    ensures
        trailing(trailing(a, n) + b, n) == trailing(a + b, n),
        trailing(a + b, n).len() == if a.len() + b.len() <= n {
            (a.len() + b.len()) as int
        } else {
            n as int
        },
{
    assert(trailing(trailing(a, n) + b, n) =~= trailing(a + b, n));
}

/// A chunk leaves a sound source sound.
pub proof fn lemma_broadcast_wf(s: SourceView, chunk: Seq<u8>, queue_size: usize, burst_size: usize)
    requires
        s.wf(),
    ensures
        s.after_broadcast(chunk, queue_size, burst_size).wf(),
        s.after_broadcast(chunk, queue_size, burst_size).burst_buffer.len() <= burst_size,
{
    lemma_fan_out_fed(s.clients, chunk, queue_size, s.mountpoint);
}

/// The index of the first listener with the identifier `id`, or the number
/// of listeners where none has it.
pub open spec fn seat(clients: Seq<ClientView>, id: u128) -> int {
    first_index(clients, |c: ClientView| c.properties.id == id)
}

/// A listener has a seat exactly if it is counted.
pub proof fn lemma_seat(clients: Seq<ClientView>, id: u128)
    ensures
        0 <= seat(clients, id) <= clients.len(),
        (seat(clients, id) < clients.len()) == (count_id(clients, id) >= 1),
        seat(clients, id) < clients.len() ==> clients[seat(clients, id)].properties.id == id,
{
    let p = |c: ClientView| c.properties.id == id;
    lemma_first_index(clients, p);
    let at = seat(clients, id);
    if at < clients.len() {
        lemma_count_at(clients, at);
    } else if count_id(clients, id) >= 1 {
        let j = lemma_count_witness(clients, id);
        assert(!p(clients[j]));
    }
}

/// The index of the first listener of the list with the identifier `id`,
/// or the length of the list where none has it.
pub fn seat_in(clients: &Vec<Client>, id: u128) -> (r: usize)
    ensures
        r == seat(client_views(clients@), id),
        r <= clients.len(),
{
    let ghost p = |c: ClientView| c.properties.id == id;
    let mut j: usize = 0;
    while j < clients.len()
        invariant
            j <= clients.len(),
            p == (|c: ClientView| c.properties.id == id),
            forall|k: int| 0 <= k < j ==> !p(#[trigger] client_views(clients@)[k]),
        decreases clients.len() - j,
    {
        if clients[j].properties.id == id {
            proof {
                lemma_first_index_is(client_views(clients@), p, j as int);
            }
            return j;
        }
        j += 1;
    }
    proof {
        lemma_first_index_is(client_views(clients@), p, j as int);
    }
    j
}

/// The listeners, each fed from `mountpoint`.
pub open spec fn moved_all(clients: Seq<ClientView>, mountpoint: Seq<char>) -> Seq<ClientView> {
    clients.map_values(|c: ClientView| c.moved_to(mountpoint))
}

/// The listeners, each told to leave.
pub open spec fn kicked_all(clients: Seq<ClientView>) -> Seq<ClientView> {
    clients.map_values(|c: ClientView| c.kicked())
}

/// Whether every listener of the list is sound in itself.
pub open spec fn all_wf(clients: Seq<ClientView>) -> bool {
    forall|j: int| 0 <= j < clients.len() ==> (#[trigger] clients[j]).wf()
}

impl SourceView {
    /// The source with the listeners of another one taken over.
    pub open spec fn adopting(self, clients: Seq<ClientView>) -> SourceView {
        SourceView { clients: self.clients + moved_all(clients, self.mountpoint), ..self }
    }
}

/// Counting does not depend on what a listener holds besides its identifier.
pub proof fn lemma_count_same_ids(a: Seq<ClientView>, b: Seq<ClientView>, id: u128)
    requires
        a.len() == b.len(),
        forall|j: int| 0 <= j < a.len() ==> (#[trigger] a[j]).properties.id == b[j].properties.id,
    ensures
        count_id(a, id) == count_id(b, id),
    decreases a.len(),
{
    if a.len() > 0 {
        assert(a.last() == a[a.len() - 1]);
        assert(a.last().properties.id == b[a.len() - 1].properties.id);
        assert forall|j: int| 0 <= j < a.drop_last().len() implies (
        #[trigger] a.drop_last()[j]).properties.id == b.drop_last()[j].properties.id by {
            assert(a.drop_last()[j] == a[j]);
        }
        lemma_count_same_ids(a.drop_last(), b.drop_last(), id);
    }
}

/// A source that takes over sound listeners stays sound.
pub proof fn lemma_adopting_wf(s: SourceView, clients: Seq<ClientView>)
    requires
        s.wf(),
        all_wf(clients),
    ensures
        s.adopting(clients).wf(),
{
    let t = s.adopting(clients);
    assert forall|j: int| 0 <= j < t.clients.len() implies (#[trigger] t.clients[j]).wf()
        && t.clients[j].source == t.mountpoint by {
        if j < s.clients.len() {
            assert(t.clients[j] == s.clients[j]);
        } else {
            assert(t.clients[j] == clients[j - s.clients.len()].moved_to(s.mountpoint));
            assert(clients[j - s.clients.len()].wf());
        }
    }
}

/// Listeners that are told to leave stay sound.
pub proof fn lemma_kicked_all_wf(clients: Seq<ClientView>)
    requires
        all_wf(clients),
    ensures
        all_wf(kicked_all(clients)),
{
    assert forall|j: int| 0 <= j < clients.len() implies (#[trigger] kicked_all(clients)[j]).wf() by {
        assert(clients[j].wf());
        lemma_kicked_wf(clients[j]);
    }
}

impl Source {
    /// Takes `clients` over: attaches each of them, in order, with this
    /// source as the one that feeds it.
    pub fn adopt(&mut self, clients: Vec<Client>)
        ensures
            final(self)@ == old(self)@.adopting(client_views(clients@)),
    {
        let ghost moved = moved_all(client_views(clients@), self@.mountpoint);
        proof {
            assert(self@.clients + moved.take(0) =~= self@.clients);
        }
        for client in it: clients
            invariant
                it.seq() == clients@,
                moved == moved_all(client_views(clients@), old(self)@.mountpoint),
                self@ == (SourceView {
                    clients: old(self)@.clients + moved.take(it.index() as int),
                    ..old(self)@
                }),
        {
            let ghost before = client_views(self.clients@);
            let mut client = client;
            client.source = self.mountpoint.clone();
            self.clients.push(client);
            proof {
                let k = it.index() as int;
                assert(client@ == moved[k]);
                assert(client_views(self.clients@) =~= before.push(client@));
                assert(moved.take(k + 1) =~= moved.take(k).push(moved[k]));
                assert(old(self)@.clients + moved.take(k + 1) =~= (old(self)@.clients + moved.take(
                    k,
                )).push(moved[k]));
            }
        }
        proof {
            assert(moved.take(clients@.len() as int) =~= moved);
        }
    }

    /// Tells every listener of the list to leave.
    pub fn kick_all(clients: &mut Vec<Client>)
        ensures
            client_views(final(clients)@) == kicked_all(client_views(old(clients)@)),
    {
        let ghost before = client_views(clients@);
        let mut j: usize = 0;
        while j < clients.len()
            invariant
                j <= clients.len(),
                clients.len() == before.len(),
                forall|k: int| 0 <= k < j ==> client_views(clients@)[k] == before[k].kicked(),
                forall|k: int| j <= k < before.len() ==> client_views(clients@)[k] == before[k],
            decreases clients.len() - j,
        {
            let ghost held = clients@;
            clients[j].kick();
            proof {
                assert(forall|k: int| 0 <= k < held.len() && k != j ==> clients@[k] == held[k]);
                assert forall|k: int| 0 <= k < j + 1 implies client_views(clients@)[k]
                    == before[k].kicked() by {
                    if k < j {
                        assert(client_views(held)[k] == before[k].kicked());
                    } else {
                        assert(client_views(held)[k] == before[k]);
                    }
                }
                assert forall|k: int| j + 1 <= k < before.len() implies client_views(clients@)[k]
                    == before[k] by {
                    assert(client_views(held)[k] == before[k]);
                }
            }
            j += 1;
        }
        assert(client_views(clients@) =~= kicked_all(before));
    }

    /// A source at the start of its stream: no metadata, no listeners, an
    /// empty burst buffer.
    pub fn new(mountpoint: String, properties: Properties, start_time: u64, relay: bool) -> (r:
        Source)
        ensures
            r@ == (SourceView {
                mountpoint: mountpoint@,
                properties: properties@,
                metadata: None,
                metadata_vec: seq![0u8],
                clients: Seq::empty(),
                burst_buffer: Seq::empty(),
                stats: Stats { start_time, bytes_read: 0, peak_listeners: 0 },
                fallback: None,
                disconnect_flag: false,
                relay,
            }),
            r@.wf(),
    {
        let r = Source {
            mountpoint,
            properties,
            metadata: None,
            metadata_vec: get_metadata_vec(&None),
            clients: Vec::new(),
            burst_buffer: Vec::new(),
            stats: Stats { start_time, bytes_read: 0, peak_listeners: 0 },
            fallback: None,
            disconnect_flag: false,
            relay,
        };
        assert(client_views(r.clients@) =~= Seq::<ClientView>::empty());
        r
    }

    /// Replaces the metadata and encodes it anew.
    pub fn set_metadata(&mut self, metadata: Option<Metadata>)
        ensures
            final(self)@ == old(self)@.with_metadata(opt_metadata(metadata)),
    {
        self.metadata_vec = get_metadata_vec(&metadata);
        self.metadata = metadata;
    }

    /// The index of the listener `id` among those attached here, or their
    /// number where it is not attached here.
    pub fn position_of(&self, id: u128) -> (r: usize)
        ensures
            r == seat(self@.clients, id),
            r <= self.clients.len(),
            (r < self.clients.len()) == (count_id(self@.clients, id) >= 1),
    {
        let r = seat_in(&self.clients, id);
        proof {
            lemma_seat(self@.clients, id);
        }
        r
    }

    /// Delivers `data` to every attached listener whose queue is open and
    /// would hold no more than `queue_size` bytes with it; removes the others
    /// from this source, tells them to leave, and returns them. The burst
    /// buffer then holds the last `burst_size` bytes of the stream.
    pub fn broadcast(&mut self, data: Vec<u8>, queue_size: usize, burst_size: usize) -> (dropped:
        Vec<Client>)
        ensures
            final(self)@ == old(self)@.after_broadcast(data@, queue_size, burst_size),
            client_views(dropped@) == evicted(old(self)@.clients, data@.len(), queue_size),
            final(self)@.burst_buffer.len() <= burst_size,
    {
        let blob = Arc::new(data);
        let ghost before = old(self)@.clients;
        let mut dropped: Vec<Client> = Vec::new();
        let mut i: usize = 0;
        let ghost mut j: int = 0;
        proof {
            assert(before.take(0) =~= Seq::<ClientView>::empty());
            assert(before.skip(0) =~= before);
            assert(Seq::<ClientView>::empty() + before =~= before);
            assert(client_views(dropped@) =~= Seq::<ClientView>::empty());
        }
        while i < self.clients.len()
            invariant
                blob@ == data@,
                before == old(self)@.clients,
                0 <= j <= before.len(),
                i <= self.clients.len(),
                self.clients.len() - i == before.len() - j,
                i == delivered(before.take(j), blob@, queue_size).len(),
                client_views(self.clients@) == delivered(before.take(j), blob@, queue_size)
                    + before.skip(j),
                client_views(dropped@) == evicted(before.take(j), blob@.len(), queue_size),
                self@ == (SourceView { clients: client_views(self.clients@), ..old(self)@ }),
            decreases self.clients.len() - i + self.clients.len(),
        {
            let ghost views = client_views(self.clients@);
            let ghost done = delivered(before.take(j), blob@, queue_size);
            let ghost gone = client_views(dropped@);
            proof {
                assert(views[i as int] == before.skip(j)[0]);
                assert(before.take(j + 1).drop_last() =~= before.take(j));
                assert(before.take(j + 1).last() == before[j]);
            }
            let ghost held = self.clients@;
            let kept = self.clients[i].offer(&blob, queue_size);
            let ghost offered = self.clients@;
            proof {
                assert(offered.len() == held.len());
                assert(forall|k: int| 0 <= k < held.len() && k != i ==> offered[k] == held[k]);
                assert(held[i as int]@ == before[j]);
            }
            if kept {
                proof {
                    let target = done.push(before[j].with_blob(blob@)) + before.skip(j + 1);
                    assert(client_views(offered).len() == target.len());
                    assert forall|k: int| 0 <= k < target.len() implies client_views(offered)[k]
                        == target[k] by {
                        if k != i {
                            assert(client_views(offered)[k] == views[k]);
                        }
                    }
                    assert(client_views(offered) =~= target);
                }
                i += 1;
            } else {
                let mut client = self.clients.remove(i);
                client.kick();
                dropped.push(client);
                proof {
                    let target = done + before.skip(j + 1);
                    assert(self.clients@ =~= offered.remove(i as int));
                    assert(client_views(self.clients@).len() == target.len());
                    assert forall|k: int| 0 <= k < target.len() implies client_views(
                        self.clients@,
                    )[k] == target[k] by {
                        if k < i {
                            assert(client_views(self.clients@)[k] == views[k]);
                        } else {
                            assert(client_views(self.clients@)[k] == views[k + 1]);
                        }
                    }
                    assert(client_views(self.clients@) =~= target);
                    assert(client_views(dropped@) =~= gone.push(before[j].kicked()));
                }
            }
            proof {
                j = j + 1;
            }
        }
        proof {
            assert(before.take(j) =~= before);
            assert(client_views(self.clients@) =~= delivered(before, blob@, queue_size));
        }
        append(&mut self.burst_buffer, blob.as_slice());
        if self.burst_buffer.len() > burst_size {
            let cut: usize = self.burst_buffer.len() - burst_size;
            let tail = self.burst_buffer.split_off(cut);
            self.burst_buffer = tail;
            assert(self.burst_buffer@ =~= trailing(
                old(self).burst_buffer@ + data@,
                burst_size,
            ));
        }
        dropped
    }
}

} // verus!
