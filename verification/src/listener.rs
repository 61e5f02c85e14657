//! The life of a listener on the server: it is admitted and attached, takes
//! the blobs of its queue one by one, and is removed when it leaves.

use vstd::prelude::*;
use std::sync::Arc;
use crate::broadcaster::{lemma_replace_source, saturating};
use crate::client;
use crate::client::{client_views, lemma_after_take_wf, lemma_kicked_wf, Client, ClientView};
use crate::lookup::{
    first_index, lemma_first_index, lemma_first_index_is, lemma_sum_at, lemma_sum_update,
    lemma_sum_zero,
};
use crate::server::{
    attached_count, entry_index, has_entry, mount_index, mount_limits, Server, ServerView, Stats,
};
use crate::source::{
    count_id, lemma_count_push, lemma_count_remove, lemma_count_same_ids, lemma_seat, seat,
    seat_in, SourceView,
};
use crate::text::append;

verus! {

/// Why a listener is not attached.
#[derive(Clone, Copy, Debug, PartialEq, Eq, Structural)]
pub enum Refusal {
    /// No source is mounted there.
    UnknownMount,
    /// The server, or the mountpoint, has as many listeners as it may have.
    TooManyListeners,
    /// The identifier belongs to a listener that the server knows.
    IdInUse,
}

/// Where a listener is.
#[derive(Clone, Copy, Debug, PartialEq, Eq, Structural)]
pub enum Place {
    /// At index `seat` among the listeners of the source at index `source`.
    Attached { source: usize, seat: usize },
    /// At index `seat` among the detached listeners.
    Detached { seat: usize },
    Nowhere,
}

/// Where a listener is among the sources and the detached listeners of a
/// server.
pub enum Spot {
    Attached { source: int, seat: int },
    Detached { seat: int },
    Nowhere,
}

impl Place {
    /// The place as a pair of indices.
    pub open spec fn spot(self) -> Spot {
        match self {
            Place::Attached { source, seat } => Spot::Attached {
                source: source as int,
                seat: seat as int,
            },
            Place::Detached { seat } => Spot::Detached { seat: seat as int },
            Place::Nowhere => Spot::Nowhere,
        }
    }
}

/// What is done to one listener.
#[derive(Clone, Copy, Debug, PartialEq, Eq, Structural)]
pub enum Touch {
    /// Its oldest blob is taken out of its queue.
    Take,
    /// So many more bytes are counted as sent to it.
    Sent(usize),
    /// It is told to leave.
    Kick,
    /// Its queue is closed.
    Close,
}

/// The listener after `op`.
pub open spec fn touched(c: ClientView, op: Touch) -> ClientView {
    match op {
        Touch::Take => c.after_take(),
        Touch::Sent(n) => c.after_sent(n),
        Touch::Kick => c.kicked(),
        Touch::Close => ClientView { closed: true, ..c },
    }
}

/// What a listener gets when it asks for its next blob.
pub enum Delivery {
    /// Bytes of the stream.
    Blob(Arc<Vec<u8>>),
    /// The word to leave.
    Kicked,
    /// Nothing: its queue is empty.
    Idle,
    /// Nothing: the server does not know it.
    Gone,
}

pub enum DeliveryView {
    Blob(Seq<u8>),
    Kicked,
    Idle,
    Gone,
}

impl View for Delivery {
    type V = DeliveryView;

    open spec fn view(&self) -> DeliveryView {
        match self {
            Delivery::Blob(b) => DeliveryView::Blob(b@),
            Delivery::Kicked => DeliveryView::Kicked,
            Delivery::Idle => DeliveryView::Idle,
            Delivery::Gone => DeliveryView::Gone,
        }
    }
}

/// What a listener is sent first: the burst buffer of its source and the
/// metadata block of the moment.
pub struct Welcome {
    pub burst: Vec<u8>,
    pub metadata: Vec<u8>,
}

/// The index of the first source to which listener `id` is attached, or the
/// number of sources where it is attached to none.
pub open spec fn holder(sources: Seq<SourceView>, id: u128) -> int {
    first_index(sources, |s: SourceView| count_id(s.clients, id) >= 1)
}

/// The larger of two numbers.
pub open spec fn larger(a: usize, b: usize) -> usize {
    if a >= b {
        a
    } else {
        b
    }
}

impl ServerView {
    /// Where listener `id` is.
    pub open spec fn place_of(self, id: u128) -> Spot {
        let i = holder(self.sources, id);
        let k = seat(self.detached, id);
        if i < self.sources.len() {
            Spot::Attached { source: i, seat: seat(self.sources[i].clients, id) }
        } else if k < self.detached.len() {
            Spot::Detached { seat: k }
        } else {
            Spot::Nowhere
        }
    }

    /// The listener `id`, if the server holds it.
    pub open spec fn listener(self, id: u128) -> Option<ClientView> {
        match self.place_of(id) {
            Spot::Attached { source, seat } => Some(self.sources[source].clients[seat]),
            Spot::Detached { seat } => Some(self.detached[seat]),
            Spot::Nowhere => None,
        }
    }

    /// The server with `c` in the place of listener `id`.
    pub open spec fn with_listener_as(self, id: u128, c: ClientView) -> ServerView {
        match self.place_of(id) {
            Spot::Attached { source, seat } => {
                let s = self.sources[source];
                ServerView {
                    sources: self.sources.update(
                        source,
                        SourceView { clients: s.clients.update(seat, c), ..s },
                    ),
                    ..self
                }
            },
            Spot::Detached { seat } => ServerView {
                detached: self.detached.update(seat, c),
                ..self
            },
            Spot::Nowhere => self,
        }
    }

    /// The server after `op` was done to listener `id`, if it holds it.
    pub open spec fn touched(self, id: u128, op: Touch) -> ServerView {
        match self.listener(id) {
            Some(c) => self.with_listener_as(id, touched(c, op)),
            None => self,
        }
    }

    /// What listener `id` gets when it asks for its next blob.
    pub open spec fn delivery(self, id: u128) -> DeliveryView {
        match self.listener(id) {
            None => DeliveryView::Gone,
            Some(c) => if c.queue.len() == 0 {
                DeliveryView::Idle
            } else if c.queue[0].len() == 0 {
                DeliveryView::Kicked
            } else {
                DeliveryView::Blob(c.queue[0])
            },
        }
    }

    /// The metadata block for listener `id`: that of the source it names,
    /// or the empty block where the server holds no such listener or source.
    pub open spec fn metadata_for(self, id: u128) -> Seq<u8> {
        match self.listener(id) {
            Some(c) => {
                let i = mount_index(self.sources, c.source);
                if i < self.sources.len() {
                    self.sources[i].metadata_vec
                } else {
                    seq![0u8]
                }
            },
            None => seq![0u8],
        }
    }

    /// Why a listener is not admitted on `mount`, if it is not: no source
    /// is mounted there, or the server or the mountpoint is full.
    pub open spec fn listener_admission(self, mount: Seq<char>) -> Option<Refusal> {
        let i = mount_index(self.sources, mount);
        if i >= self.sources.len() {
            Some(Refusal::UnknownMount)
        } else if self.clients.len() >= self.properties.limits.clients {
            Some(Refusal::TooManyListeners)
        } else {
            match mount_limits(self.properties.limits.source_limits@, mount) {
                Some(own) => if self.sources[i].clients.len() >= own.clients {
                    Some(Refusal::TooManyListeners)
                } else {
                    None
                },
                None => None,
            }
        }
    }

    /// Why a listener with the identifier `id` is not attached on `mount`, if it is not.
    pub open spec fn listener_refusal(self, mount: Seq<char>, id: u128) -> Option<Refusal> {
        match self.listener_admission(mount) {
            Some(r) => Some(r),
            None => if has_entry(self.clients, id) {
                Some(Refusal::IdInUse)
            } else {
                None
            },
        }
    }

    /// The server with one more listener on `mount`, and the peaks of the
    /// source and of the server brought up to date.
    pub open spec fn with_listener(
        self,
        mount: Seq<char>,
        properties: client::PropertiesView,
        start_time: u64,
    ) -> ServerView {
        let i = mount_index(self.sources, mount);
        let s = self.sources[i];
        let c = ClientView {
            source: s.mountpoint,
            queue: Seq::empty(),
            closed: false,
            buffer_size: 0,
            properties,
            stats: client::Stats { start_time, bytes_sent: 0 },
        };
        ServerView {
            sources: self.sources.update(
                i,
                SourceView {
                    clients: s.clients.push(c),
                    stats: crate::source::Stats {
                        peak_listeners: larger(
                            s.stats.peak_listeners,
                            (s.clients.len() + 1) as usize,
                        ),
                        ..s.stats
                    },
                    ..s
                },
            ),
            clients: self.clients.push(properties),
            stats: Stats {
                peak_listeners: larger(
                    self.stats.peak_listeners,
                    (self.clients.len() + 1) as usize,
                ),
                ..self.stats
            },
            ..self
        }
    }

    /// The server after listener `id` left: its entry is gone, it is
    /// removed from where it was, and the bytes sent to it are added to
    /// those of the session.
    pub open spec fn after_detach(self, id: u128) -> ServerView {
        let e = entry_index(self.clients, id);
        let entries = if e < self.clients.len() {
            self.clients.remove(e)
        } else {
            self.clients
        };
        let sent = match self.listener(id) {
            Some(c) => c.stats.bytes_sent,
            None => 0,
        };
        let stats = Stats {
            session_bytes_sent: saturating(self.stats.session_bytes_sent + sent),
            ..self.stats
        };
        match self.place_of(id) {
            Spot::Attached { source, seat } => {
                let s = self.sources[source];
                ServerView {
                    sources: self.sources.update(
                        source,
                        SourceView { clients: s.clients.remove(seat), ..s },
                    ),
                    clients: entries,
                    stats,
                    ..self
                }
            },
            Spot::Detached { seat } => ServerView {
                detached: self.detached.remove(seat),
                clients: entries,
                stats,
                ..self
            },
            Spot::Nowhere => ServerView { clients: entries, stats, ..self },
        }
    }
}

/// What is known of the place of a listener.
pub proof fn lemma_place(s: ServerView, id: u128)
    ensures
        match s.place_of(id) {
            Spot::Attached { source, seat } => {
                &&& 0 <= source < s.sources.len()
                &&& 0 <= seat < s.sources[source].clients.len()
                &&& s.sources[source].clients[seat].properties.id == id
                &&& attached_count(s.sources, id) >= 1
            },
            Spot::Detached { seat } => {
                &&& 0 <= seat < s.detached.len()
                &&& s.detached[seat].properties.id == id
                &&& attached_count(s.sources, id) == 0
                &&& count_id(s.detached, id) >= 1
            },
            Spot::Nowhere => s.named(id) == 0,
        },
{
    let p = |x: SourceView| count_id(x.clients, id) >= 1;
    lemma_first_index(s.sources, p);
    lemma_seat(s.detached, id);
    let i = holder(s.sources, id);
    if i < s.sources.len() {
        lemma_seat(s.sources[i].clients, id);
        lemma_sum_at(s.sources, i, |x: SourceView| count_id(x.clients, id));
    } else {
        assert forall|k: int| 0 <= k < s.sources.len() implies (|x: SourceView|
            count_id(x.clients, id))(#[trigger] s.sources[k]) == 0 by {
            assert(!p(s.sources[k]));
        }
        lemma_sum_zero(s.sources, |x: SourceView| count_id(x.clients, id));
    }
}

/// An entry with the identifier `id` exists exactly if some index holds one.
pub proof fn lemma_has_entry(entries: Seq<client::PropertiesView>, id: u128)
    ensures
        has_entry(entries, id) <==> exists|k: int|
            0 <= k < entries.len() && (#[trigger] entries[k]).id == id,
{
    let p = |e: client::PropertiesView| e.id == id;
    lemma_first_index(entries, p);
    if has_entry(entries, id) {
        assert(entries[entry_index(entries, id)].id == id);
    }
    if exists|k: int| 0 <= k < entries.len() && (#[trigger] entries[k]).id == id {
        let k = choose|k: int| 0 <= k < entries.len() && (#[trigger] entries[k]).id == id;
        assert(p(entries[k]));
    }
}

/// A server in which one listener was replaced stays sound if the new
/// listener is sound and has the identifier and the source of the old one.
pub proof fn lemma_with_listener_as_wf(s: ServerView, id: u128, c: ClientView)
    requires
        s.wf(),
        s.listener(id) is Some,
        c.wf(),
        c.properties.id == id,
        c.source == s.listener(id)->0.source,
    ensures
        s.with_listener_as(id, c).wf(),
{
    lemma_place(s, id);
    let t = s.with_listener_as(id, c);
    match s.place_of(id) {
        Spot::Attached { source, seat } => {
            let i = source;
            let j = seat;
            let old_source = s.sources[i];
            assert(old_source.wf());
            let x = SourceView { clients: old_source.clients.update(j, c), ..old_source };
            assert forall|k: int| 0 <= k < x.clients.len() implies (#[trigger] x.clients[k]).wf()
                && x.clients[k].source == x.mountpoint by {
                if k != j {
                    assert(x.clients[k] == old_source.clients[k]);
                } else {
                    assert(old_source.clients[j].source == old_source.mountpoint);
                }
            }
            assert forall|other: u128|
                count_id(x.clients, other) + #[trigger] count_id(
                    Seq::<ClientView>::empty(),
                    other,
                ) == count_id(old_source.clients, other) by {
                lemma_count_same_ids(x.clients, old_source.clients, other);
            }
            lemma_replace_source(s, i, x, Seq::empty());
            assert(s.detached + Seq::<ClientView>::empty() =~= s.detached);
        },
        Spot::Detached { seat } => {
            let k = seat;
            assert forall|other: u128| #[trigger] t.named(other) == s.named(other) by {
                lemma_count_same_ids(t.detached, s.detached, other);
            }
            assert forall|other: u128| #[trigger] t.named(other) <= 1 by {
                assert(s.named(other) <= 1);
            }
            assert forall|other: u128| #[trigger] t.named(other) >= 1 implies has_entry(
                t.clients,
                other,
            ) by {
                assert(s.named(other) >= 1);
            }
            assert forall|m: int| 0 <= m < t.detached.len() implies (#[trigger] t.detached[m]).wf() by {
                if m != k {
                    assert(t.detached[m] == s.detached[m]);
                }
            }
        },
        Spot::Nowhere => {},
    }
}

/// What is done to a listener leaves it sound, with its identifier and its source.
pub proof fn lemma_touched(c: ClientView, op: Touch)
    requires
        c.wf(),
    ensures
        touched(c, op).wf(),
        touched(c, op).properties.id == c.properties.id,
        touched(c, op).source == c.source,
{
    lemma_after_take_wf(c);
    lemma_kicked_wf(c);
}

/// What is done to a listener leaves the server sound.
pub proof fn lemma_touched_keeps_wf(s: ServerView, id: u128, op: Touch)
    requires
        s.wf(),
    ensures
        s.touched(id, op).wf(),
        s.listener(id) is Some ==> s.listener(id)->0.wf() && s.listener(id)->0.properties.id == id,
{
    lemma_place(s, id);
    match s.place_of(id) {
        Spot::Attached { source, seat } => {
            assert(s.sources[source].wf());
            assert(s.sources[source].clients[seat].wf());
        },
        Spot::Detached { seat } => {
            assert(s.detached[seat].wf());
        },
        Spot::Nowhere => {},
    }
    if s.listener(id) is Some {
        let c = s.listener(id)->0;
        lemma_touched(c, op);
        lemma_with_listener_as_wf(s, id, touched(c, op));
    }
}

/// A new listener with an unused identifier on a mounted source leaves the
/// server sound.
pub proof fn lemma_with_listener_wf(
    s: ServerView,
    mount: Seq<char>,
    properties: client::PropertiesView,
    start_time: u64,
)
    requires
        s.wf(),
        s.listener_refusal(mount, properties.id) is None,
    ensures
        s.with_listener(mount, properties, start_time).wf(),
{
    let id = properties.id;
    let t = s.with_listener(mount, properties, start_time);
    let i = mount_index(s.sources, mount);
    lemma_first_index(s.sources, |y: SourceView| y.mountpoint == mount);
    lemma_has_entry(s.clients, id);
    lemma_has_entry(t.clients, id);
    let old_source = s.sources[i];
    let x = t.sources[i];
    let c = x.clients[old_source.clients.len() as int];
    assert(old_source.wf());
    assert(c.queue.len() == 0);
    assert(c.wf());
    assert forall|k: int| 0 <= k < x.clients.len() implies (#[trigger] x.clients[k]).wf()
        && x.clients[k].source == x.mountpoint by {
        if k < old_source.clients.len() {
            assert(x.clients[k] == old_source.clients[k]);
        }
    }
    assert(s.named(id) == 0) by {
        if s.named(id) >= 1 {
            assert(has_entry(s.clients, id));
        }
    }
    assert forall|other: u128| #[trigger] t.named(other) == s.named(other) + if other == id {
        1nat
    } else {
        0nat
    } by {
        lemma_sum_update(s.sources, i, x, |y: SourceView| count_id(y.clients, other));
        lemma_count_push(old_source.clients, c, other);
    }
    assert forall|other: u128| #[trigger] t.named(other) <= 1 by {
        assert(s.named(other) <= 1);
    }
    assert forall|other: u128| #[trigger] t.named(other) >= 1 implies has_entry(
        t.clients,
        other,
    ) by {
        lemma_has_entry(t.clients, other);
        if other == id {
            assert(t.clients[s.clients.len() as int].id == id);
        } else {
            assert(s.named(other) >= 1);
            lemma_has_entry(s.clients, other);
            let k = choose|k: int| 0 <= k < s.clients.len() && (#[trigger] s.clients[k]).id == other;
            assert(t.clients[k].id == other);
        }
    }
    assert forall|a: int, b: int| 0 <= a < b < t.clients.len() implies (#[trigger] t.clients[a]).id
        != (#[trigger] t.clients[b]).id by {
        if b < s.clients.len() {
            assert(s.clients[a].id != s.clients[b].id);
        } else {
            assert(t.clients[a] == s.clients[a]);
        }
    }
    lemma_sum_update(
        s.sources,
        i,
        x,
        |y: SourceView|
            if y.relay {
                1nat
            } else {
                0nat
            },
    );
    assert forall|a: int, b: int| 0 <= a < b < t.sources.len() implies (
    #[trigger] t.sources[a]).mountpoint != (#[trigger] t.sources[b]).mountpoint by {
        assert(s.sources[a].mountpoint != s.sources[b].mountpoint);
    }
    assert forall|a: int| 0 <= a < t.sources.len() implies (#[trigger] t.sources[a]).wf()
        && t.sources[a].burst_buffer.len() <= t.properties.limits.burst_size_of(
        t.sources[a].mountpoint,
    ) by {
        if a != i {
            assert(s.sources[a].wf());
        }
        assert(s.sources[a].burst_buffer.len() <= s.properties.limits.burst_size_of(
            s.sources[a].mountpoint,
        ));
    }
}

/// The leaving of a listener leaves the server sound.
pub proof fn lemma_detach_keeps_wf(s: ServerView, id: u128)
    requires
        s.wf(),
    ensures
        s.after_detach(id).wf(),
{
    let t = s.after_detach(id);
    lemma_place(s, id);
    let e = entry_index(s.clients, id);
    lemma_first_index(s.clients, |p: client::PropertiesView| p.id == id);
    assert forall|a: int, b: int| 0 <= a < b < t.clients.len() implies (#[trigger] t.clients[a]).id
        != (#[trigger] t.clients[b]).id by {
        let a1 = if e < s.clients.len() && a >= e {
            a + 1
        } else {
            a
        };
        let b1 = if e < s.clients.len() && b >= e {
            b + 1
        } else {
            b
        };
        assert(s.clients[a1].id != s.clients[b1].id);
    }
    assert forall|other: u128| other != id && has_entry(s.clients, other) implies has_entry(
        t.clients,
        other,
    ) by {
        lemma_has_entry(s.clients, other);
        lemma_has_entry(t.clients, other);
        let k = choose|k: int| 0 <= k < s.clients.len() && (#[trigger] s.clients[k]).id == other;
        if e < s.clients.len() {
            let k1 = if k < e {
                k
            } else {
                k - 1
            };
            assert(t.clients[k1] == s.clients[k]);
        }
    }
    match s.place_of(id) {
        Spot::Attached { source, seat } => {
            let i = source;
            let j = seat;
            let old_source = s.sources[i];
            assert(old_source.wf());
            let x = SourceView { clients: old_source.clients.remove(j), ..old_source };
            assert forall|k: int| 0 <= k < x.clients.len() implies (#[trigger] x.clients[k]).wf()
                && x.clients[k].source == x.mountpoint by {
                let k1 = if k < j {
                    k
                } else {
                    k + 1
                };
                assert(x.clients[k] == old_source.clients[k1]);
            }
            assert forall|other: u128| #[trigger] t.named(other) + (if other == id {
                1nat
            } else {
                0nat
            }) == s.named(other) by {
                lemma_sum_update(s.sources, i, x, |y: SourceView| count_id(y.clients, other));
                lemma_count_remove(old_source.clients, j, other);
            }
            lemma_sum_update(
                s.sources,
                i,
                x,
                |y: SourceView|
                    if y.relay {
                        1nat
                    } else {
                        0nat
                    },
            );
            assert forall|a: int, b: int| 0 <= a < b < t.sources.len() implies (
            #[trigger] t.sources[a]).mountpoint != (#[trigger] t.sources[b]).mountpoint by {
                assert(s.sources[a].mountpoint != s.sources[b].mountpoint);
            }
            assert forall|a: int| 0 <= a < t.sources.len() implies (#[trigger] t.sources[a]).wf()
                && t.sources[a].burst_buffer.len() <= t.properties.limits.burst_size_of(
                t.sources[a].mountpoint,
            ) by {
                if a != i {
                    assert(s.sources[a].wf());
                }
                assert(s.sources[a].burst_buffer.len() <= s.properties.limits.burst_size_of(
                    s.sources[a].mountpoint,
                ));
            }
        },
        Spot::Detached { seat } => {
            let k = seat;
            assert forall|other: u128| #[trigger] t.named(other) + (if other == id {
                1nat
            } else {
                0nat
            }) == s.named(other) by {
                lemma_count_remove(s.detached, k, other);
            }
            assert forall|m: int| 0 <= m < t.detached.len() implies (#[trigger] t.detached[m]).wf() by {
                let m1 = if m < k {
                    m
                } else {
                    m + 1
                };
                assert(t.detached[m] == s.detached[m1]);
            }
        },
        Spot::Nowhere => {
            assert forall|other: u128| #[trigger] t.named(other) + (if other == id {
                0nat
            } else {
                0nat
            }) == s.named(other) by {}
        },
    }
    assert forall|other: u128| #[trigger] t.named(other) <= 1 by {
        assert(s.named(other) <= 1);
    }
    assert forall|other: u128| #[trigger] t.named(other) >= 1 implies has_entry(
        t.clients,
        other,
    ) by {
        assert(s.named(other) >= 1);
        assert(s.named(id) <= 1);
        assert(other != id);
    }
}

/// Does `op` to one listener; returns the blob that was taken, if one was.
fn touch(client: &mut Client, op: Touch) -> (r: Option<Arc<Vec<u8>>>)
    requires
        old(client)@.wf(),
    ensures
        final(client)@ == touched(old(client)@, op),
        match r {
            Some(blob) => op is Take && old(client)@.queue.len() > 0 && blob@ == old(
                client,
            )@.queue[0],
            None => !(op is Take) || old(client)@.queue.len() == 0,
        },
{
    match op {
        Touch::Take => client.take(),
        Touch::Sent(n) => {
            client.sent(n);
            None
        },
        Touch::Kick => {
            client.kick();
            None
        },
        Touch::Close => {
            client.close();
            None
        },
    }
}

impl Server {
    /// Where listener `id` is.
    pub fn locate(&self, id: u128) -> (r: Place)
        ensures
            r.spot() == self@.place_of(id),
    {
        let ghost p = |x: SourceView| count_id(x.clients, id) >= 1;
        let mut i: usize = 0;
        while i < self.sources.len()
            invariant
                i <= self.sources.len(),
                p == (|x: SourceView| count_id(x.clients, id) >= 1),
                forall|k: int| 0 <= k < i ==> !p(#[trigger] self@.sources[k]),
            decreases self.sources.len() - i,
        {
            let j = self.sources[i].position_of(id);
            if j < self.sources[i].clients.len() {
                proof {
                    lemma_first_index_is(self@.sources, p, i as int);
                }
                return Place::Attached { source: i, seat: j };
            }
            i += 1;
        }
        proof {
            lemma_first_index_is(self@.sources, p, i as int);
        }
        let k = seat_in(&self.detached, id);
        if k < self.detached.len() {
            Place::Detached { seat: k }
        } else {
            Place::Nowhere
        }
    }

    /// Does `op` to listener `id`, if the server holds it; returns the blob
    /// that was taken, if one was.
    fn touch_listener(&mut self, id: u128, op: Touch) -> (r: Option<Arc<Vec<u8>>>)
        requires
            old(self)@.wf(),
        ensures
            final(self)@ == old(self)@.touched(id, op),
            final(self)@.wf(),
            match r {
                Some(blob) => op is Take && old(self)@.listener(id) is Some && old(self)@.listener(
                    id,
                )->0.queue.len() > 0 && blob@ == old(self)@.listener(id)->0.queue[0],
                None => !(op is Take) || old(self)@.listener(id) is None || old(self)@.listener(
                    id,
                )->0.queue.len() == 0,
            },
    {
        proof {
            lemma_place(self@, id);
            lemma_touched_keeps_wf(self@, id, op);
        }
        let ghost before = self@;
        match self.locate(id) {
            Place::Attached { source, seat } => {
                let ghost held = self.sources@[source as int].clients@;
                let r = touch(&mut self.sources[source].clients[seat], op);
                proof {
                    let s = before.sources[source as int];
                    let c = touched(s.clients[seat as int], op);
                    assert(client_views(self.sources@[source as int].clients@) =~= s.clients.update(
                        seat as int,
                        c,
                    ));
                    assert(self@.sources =~= before.sources.update(
                        source as int,
                        SourceView { clients: s.clients.update(seat as int, c), ..s },
                    ));
                }
                r
            },
            Place::Detached { seat } => {
                let r = touch(&mut self.detached[seat], op);
                proof {
                    assert(self@.detached =~= before.detached.update(
                        seat as int,
                        touched(before.detached[seat as int], op),
                    ));
                }
                r
            },
            Place::Nowhere => None,
        }
    }

    /// Why a listener is not admitted on `mount`, if it is not.
    pub fn check_listener(&self, mount: &str) -> (r: Option<Refusal>)
        ensures
            r == self@.listener_admission(mount@),
    {
        let i = self.source_index(mount);
        if i >= self.sources.len() {
            Some(Refusal::UnknownMount)
        } else if self.clients.len() >= self.properties.limits.clients {
            Some(Refusal::TooManyListeners)
        } else {
            match self.properties.limits.for_mount(mount) {
                Some(own) => if self.sources[i].clients.len() >= own.clients {
                    Some(Refusal::TooManyListeners)
                } else {
                    None
                },
                None => None,
            }
        }
    }

    /// Attaches a new listener to the source on `mount` and enters it in
    /// the list of listeners, unless it is refused. Returns what the
    /// listener is sent first.
    pub fn attach_listener(
        &mut self,
        mount: &str,
        properties: client::Properties,
        start_time: u64,
    ) -> (r: Result<Welcome, Refusal>)
        requires
            old(self)@.wf(),
        ensures
            final(self)@.wf(),
            match r {
                Ok(welcome) => {
                    let i = mount_index(old(self)@.sources, mount@);
                    &&& old(self)@.listener_refusal(mount@, properties.id) is None
                    &&& final(self)@ == old(self)@.with_listener(mount@, properties@, start_time)
                    &&& welcome.burst@ == old(self)@.sources[i].burst_buffer
                    &&& welcome.metadata@ == old(self)@.sources[i].metadata_vec
                },
                Err(e) => {
                    &&& old(self)@.listener_refusal(mount@, properties.id) == Some(e)
                    &&& final(self)@ == old(self)@
                },
            },
    {
        match self.check_listener(mount) {
            Some(e) => {
                return Err(e);
            },
            None => {},
        }
        if self.client_index(properties.id) < self.clients.len() {
            return Err(Refusal::IdInUse);
        }
        let i = self.source_index(mount);
        let ghost before = self@;
        proof {
            lemma_first_index(before.sources, |y: SourceView| y.mountpoint == mount@);
            lemma_with_listener_wf(before, mount@, properties@, start_time);
        }
        let mut burst: Vec<u8> = Vec::new();
        append(&mut burst, self.sources[i].burst_buffer.as_slice());
        let mut metadata: Vec<u8> = Vec::new();
        append(&mut metadata, self.sources[i].metadata_vec.as_slice());
        assert(burst@ =~= before.sources[i as int].burst_buffer);
        assert(metadata@ =~= before.sources[i as int].metadata_vec);
        let entry = properties.clone();
        let listener = Client::new(self.sources[i].mountpoint.clone(), properties, start_time);
        self.sources[i].clients.push(listener);
        let attached = self.sources[i].clients.len();
        if attached > self.sources[i].stats.peak_listeners {
            self.sources[i].stats.peak_listeners = attached;
        }
        self.clients.push(entry);
        let known = self.clients.len();
        if known > self.stats.peak_listeners {
            self.stats.peak_listeners = known;
        }
        proof {
            let t = before.with_listener(mount@, properties@, start_time);
            assert(client_views(self.sources@[i as int].clients@) =~= t.sources[i as int].clients);
            assert(self@.sources =~= t.sources);
            assert(self@.clients =~= t.clients);
        }
        Ok(Welcome { burst, metadata })
    }

    /// Takes the next blob out of the queue of listener `id`.
    pub fn next_blob(&mut self, id: u128) -> (r: Delivery)
        requires
            old(self)@.wf(),
        ensures
            r@ == old(self)@.delivery(id),
            final(self)@ == old(self)@.touched(id, Touch::Take),
            final(self)@.wf(),
    {
        let known = match self.locate(id) {
            Place::Nowhere => false,
            _ => true,
        };
        match self.touch_listener(id, Touch::Take) {
            Some(blob) => if blob.len() == 0 {
                Delivery::Kicked
            } else {
                Delivery::Blob(blob)
            },
            None => if known {
                Delivery::Idle
            } else {
                Delivery::Gone
            },
        }
    }

    /// Counts `n` more bytes as sent to listener `id`.
    pub fn record_sent(&mut self, id: u128, n: usize)
        requires
            old(self)@.wf(),
        ensures
            final(self)@ == old(self)@.touched(id, Touch::Sent(n)),
            final(self)@.wf(),
    {
        let _ = self.touch_listener(id, Touch::Sent(n));
    }

    /// Closes the queue of listener `id`.
    pub fn close_queue(&mut self, id: u128)
        requires
            old(self)@.wf(),
        ensures
            final(self)@ == old(self)@.touched(id, Touch::Close),
            final(self)@.wf(),
    {
        let _ = self.touch_listener(id, Touch::Close);
    }

    /// The metadata block that goes to listener `id` now.
    pub fn metadata_for(&self, id: u128) -> (r: Vec<u8>)
        ensures
            r@ == self@.metadata_for(id),
    {
        proof {
            lemma_place(self@, id);
        }
        let mut block: Vec<u8> = Vec::new();
        let i = match self.locate(id) {
            Place::Attached { source, seat } => self.source_index(
                self.sources[source].clients[seat].source.as_str(),
            ),
            Place::Detached { seat } => self.source_index(self.detached[seat].source.as_str()),
            Place::Nowhere => self.sources.len(),
        };
        if i < self.sources.len() {
            append(&mut block, self.sources[i].metadata_vec.as_slice());
            assert(block@ =~= self@.sources[i as int].metadata_vec);
        } else {
            block.push(0);
            assert(block@ =~= seq![0u8]);
        }
        block
    }

    /// Removes listener `id` from the server.
    pub fn detach_listener(&mut self, id: u128)
        requires
            old(self)@.wf(),
        ensures
            final(self)@ == old(self)@.after_detach(id),
            final(self)@.wf(),
    {
        proof {
            lemma_place(self@, id);
            lemma_detach_keeps_wf(self@, id);
        }
        let ghost before = self@;
        let e = self.client_index(id);
        if e < self.clients.len() {
            self.clients.remove(e);
            assert(self@.clients =~= before.clients.remove(e as int));
        }
        let sent: usize = match self.locate(id) {
            Place::Attached { source, seat } => {
                let gone = self.sources[source].clients.remove(seat);
                proof {
                    let s = before.sources[source as int];
                    assert(client_views(self.sources@[source as int].clients@) =~= s.clients.remove(
                        seat as int,
                    ));
                    assert(self@.sources =~= before.sources.update(
                        source as int,
                        SourceView { clients: s.clients.remove(seat as int), ..s },
                    ));
                }
                gone.stats.bytes_sent
            },
            Place::Detached { seat } => {
                let gone = self.detached.remove(seat);
                assert(self@.detached =~= before.detached.remove(seat as int));
                gone.stats.bytes_sent
            },
            Place::Nowhere => 0,
        };
        self.stats.session_bytes_sent = self.stats.session_bytes_sent.saturating_add(sent);
    }
}

} // verus!
