//! The life of a stream on the server: chunks go out to the listeners of
//! its source, and when it ends its listeners are handed over or sent away.

use vstd::prelude::*;
use crate::client::{client_views, ClientView};
use crate::lookup::{lemma_first_index, lemma_sum_bound, lemma_sum_remove, lemma_sum_update};
use crate::server::{has_entry, mount_index, Server, ServerView, Stats};
use crate::source::{
    all_wf, count_id, evicted, kicked_all, lemma_adopting_wf, lemma_broadcast_wf, lemma_count_add,
    lemma_count_same_ids, lemma_fan_out, lemma_fan_out_fed, lemma_kicked_all_wf, moved_all, Source,
    SourceView,
};

verus! {

/// A count that stops at the largest number it can hold.
pub open spec fn saturating(n: int) -> usize {
    if n > usize::MAX {
        usize::MAX
    } else {
        n as usize
    }
}

impl SourceView {
    /// The source after `n` more bytes of its stream were read.
    pub open spec fn after_read(self, n: nat) -> SourceView {
        SourceView {
            stats: crate::source::Stats {
                bytes_read: saturating(self.stats.bytes_read + n),
                ..self.stats
            },
            ..self
        }
    }

    /// The source without its listeners.
    pub open spec fn deserted(self) -> SourceView {
        SourceView { clients: Seq::empty(), ..self }
    }
}

impl ServerView {
    /// The server after `data` went out on `mount`: the source there has
    /// delivered it, and the listeners that it dropped are detached. Nothing
    /// changes where no source is mounted there.
    pub open spec fn after_broadcast(self, mount: Seq<char>, data: Seq<u8>) -> ServerView {
        let i = mount_index(self.sources, mount);
        if i >= self.sources.len() {
            self
        } else {
            let s = self.sources[i];
            let queue_size = self.properties.limits.queue_size;
            let burst_size = self.properties.limits.burst_size_of(mount);
            ServerView {
                sources: self.sources.update(i, s.after_broadcast(data, queue_size, burst_size)),
                detached: self.detached + evicted(s.clients, data.len(), queue_size),
                ..self
            }
        }
    }

    /// The server after the source on `mount` produced `data`: the data
    /// went out and was counted. Empty data changes nothing.
    pub open spec fn after_feed(self, mount: Seq<char>, data: Seq<u8>) -> ServerView {
        let i = mount_index(self.sources, mount);
        if data.len() == 0 || i >= self.sources.len() {
            self
        } else {
            let t = self.after_broadcast(mount, data);
            ServerView { sources: t.sources.update(i, t.sources[i].after_read(data.len())), ..t }
        }
    }

    /// The server after the source on `mount` ended. Its listeners go to
    /// the source on its fallback mountpoint, if it names one and a source
    /// is mounted there; else they are told to leave and are detached. The
    /// source is removed, its counter goes down, and the bytes it read are
    /// added to those of the session.
    pub open spec fn after_unmount(self, mount: Seq<char>) -> ServerView {
        let i = mount_index(self.sources, mount);
        if i >= self.sources.len() {
            self
        } else {
            let s = self.sources[i];
            let rest = self.sources.remove(i);
            let heir = match s.fallback {
                Some(name) => mount_index(rest, name),
                None => rest.len() as int,
            };
            ServerView {
                sources: if heir < rest.len() {
                    rest.update(heir, rest[heir].adopting(s.clients))
                } else {
                    rest
                },
                detached: if heir < rest.len() {
                    self.detached
                } else {
                    self.detached + kicked_all(s.clients)
                },
                source_count: if s.relay {
                    self.source_count
                } else {
                    (self.source_count - 1) as usize
                },
                relay_count: if s.relay {
                    (self.relay_count - 1) as usize
                } else {
                    self.relay_count
                },
                stats: Stats {
                    session_bytes_read: saturating(
                        self.stats.session_bytes_read + s.stats.bytes_read,
                    ),
                    ..self.stats
                },
                ..self
            }
        }
    }
}

/// A server in which one source was replaced stays sound if the new source
/// is sound, sits on the same mountpoint, is of the same kind, keeps to its
/// burst size, and if each of the old listeners is either still attached
/// there or now among the detached ones.
pub proof fn lemma_replace_source(s: ServerView, i: int, x: SourceView, extra: Seq<ClientView>)
    requires
        s.wf(),
        0 <= i < s.sources.len(),
        x.wf(),
        x.mountpoint == s.sources[i].mountpoint,
        x.relay == s.sources[i].relay,
        x.burst_buffer.len() <= s.properties.limits.burst_size_of(x.mountpoint),
        all_wf(extra),
        forall|id: u128|
            count_id(x.clients, id) + #[trigger] count_id(extra, id) == count_id(
                s.sources[i].clients,
                id,
            ),
    ensures
        (ServerView { sources: s.sources.update(i, x), detached: s.detached + extra, ..s }).wf(),
{
    let t = ServerView { sources: s.sources.update(i, x), detached: s.detached + extra, ..s };
    let relay = |y: SourceView|
        if y.relay {
            1nat
        } else {
            0nat
        };
    lemma_sum_update(s.sources, i, x, relay);
    assert forall|id: u128| #[trigger] t.named(id) == s.named(id) by {
        lemma_sum_update(s.sources, i, x, |y: SourceView| count_id(y.clients, id));
        lemma_count_add(s.detached, extra, id);
        assert(count_id(x.clients, id) + count_id(extra, id) == count_id(s.sources[i].clients, id));
    }
    assert forall|id: u128| #[trigger] t.named(id) <= 1 by {
        assert(s.named(id) <= 1);
    }
    assert forall|id: u128| #[trigger] t.named(id) >= 1 implies has_entry(t.clients, id) by {
        assert(s.named(id) >= 1);
    }
    assert forall|k: int| 0 <= k < t.detached.len() implies (#[trigger] t.detached[k]).wf() by {
        if k < s.detached.len() {
            assert(t.detached[k] == s.detached[k]);
        } else {
            assert(t.detached[k] == extra[k - s.detached.len()]);
        }
    }
    assert forall|a: int, b: int| 0 <= a < b < t.sources.len() implies (
    #[trigger] t.sources[a]).mountpoint != (#[trigger] t.sources[b]).mountpoint by {
        assert(s.sources[a].mountpoint != s.sources[b].mountpoint);
    }
    assert forall|a: int| 0 <= a < t.sources.len() implies (#[trigger] t.sources[a]).wf() by {
        if a != i {
            assert(s.sources[a].wf());
        }
    }
    assert forall|a: int| 0 <= a < t.sources.len() implies (
    #[trigger] t.sources[a]).burst_buffer.len() <= t.properties.limits.burst_size_of(
        t.sources[a].mountpoint,
    ) by {
        if a != i {
            assert(s.sources[a].burst_buffer.len() <= s.properties.limits.burst_size_of(
                s.sources[a].mountpoint,
            ));
        }
    }
}

/// A chunk that goes out leaves the server sound.
pub proof fn lemma_broadcast_keeps_wf(s: ServerView, mount: Seq<char>, data: Seq<u8>)
    requires
        s.wf(),
    ensures
        s.after_broadcast(mount, data).wf(),
        s.after_feed(mount, data).wf(),
{
    let i = mount_index(s.sources, mount);
    lemma_first_index(s.sources, |y: SourceView| y.mountpoint == mount);
    if i < s.sources.len() {
        let src = s.sources[i];
        assert(src.wf());
        let queue_size = s.properties.limits.queue_size;
        let burst_size = s.properties.limits.burst_size_of(mount);
        let x = src.after_broadcast(data, queue_size, burst_size);
        let extra = evicted(src.clients, data.len(), queue_size);
        lemma_broadcast_wf(src, data, queue_size, burst_size);
        lemma_fan_out_fed(src.clients, data, queue_size, src.mountpoint);
        assert forall|id: u128|
            count_id(x.clients, id) + #[trigger] count_id(extra, id) == count_id(
                src.clients,
                id,
            ) by {
            lemma_fan_out(src.clients, data, queue_size, id);
        }
        lemma_replace_source(s, i, x, extra);
        let t = s.after_broadcast(mount, data);
        if data.len() != 0 {
            let y = x.after_read(data.len());
            assert forall|id: u128|
                count_id(y.clients, id) + #[trigger] count_id(Seq::<ClientView>::empty(), id)
                    == count_id(t.sources[i].clients, id) by {}
            lemma_replace_source(t, i, y, Seq::empty());
            assert(t.detached + Seq::<ClientView>::empty() =~= t.detached);
        }
    }
}

/// The end of a source leaves the server sound.
pub proof fn lemma_unmount_keeps_wf(s: ServerView, mount: Seq<char>)
    requires
        s.wf(),
    ensures
        s.after_unmount(mount).wf(),
        mount_index(s.sources, mount) < s.sources.len() ==> {
            let gone = s.sources[mount_index(s.sources, mount)];
            &&& gone.relay ==> s.relay_count >= 1
            &&& !gone.relay ==> s.source_count >= 1
        },
{
    let i = mount_index(s.sources, mount);
    lemma_first_index(s.sources, |y: SourceView| y.mountpoint == mount);
    if i < s.sources.len() {
        let t = s.after_unmount(mount);
        let gone = s.sources[i];
        let rest = s.sources.remove(i);
        assert(gone.wf());
        let relay = |y: SourceView|
            if y.relay {
                1nat
            } else {
                0nat
            };
        lemma_sum_remove(s.sources, i, relay);
        lemma_sum_bound(rest, relay);
        let heir = match gone.fallback {
            Some(name) => mount_index(rest, name),
            None => rest.len() as int,
        };
        if gone.fallback is Some {
            lemma_first_index(rest, |y: SourceView| y.mountpoint == gone.fallback->0);
        }
        assert forall|a: int| 0 <= a < rest.len() implies (#[trigger] rest[a]).wf()
            && rest[a].burst_buffer.len() <= s.properties.limits.burst_size_of(
            rest[a].mountpoint,
        ) by {
            let b = if a < i {
                a
            } else {
                a + 1
            };
            assert(rest[a] == s.sources[b]);
            assert(s.sources[b].wf());
        }
        assert forall|a: int, b: int| 0 <= a < b < rest.len() implies (
        #[trigger] rest[a]).mountpoint != (#[trigger] rest[b]).mountpoint by {
            let a1 = if a < i {
                a
            } else {
                a + 1
            };
            let b1 = if b < i {
                b
            } else {
                b + 1
            };
            assert(s.sources[a1].mountpoint != s.sources[b1].mountpoint);
        }
        assert(all_wf(gone.clients));
        if heir < rest.len() {
            let y = rest[heir].adopting(gone.clients);
            lemma_adopting_wf(rest[heir], gone.clients);
            lemma_sum_update(rest, heir, y, relay);
            assert forall|id: u128| #[trigger] t.named(id) == s.named(id) by {
                let f = |z: SourceView| count_id(z.clients, id);
                lemma_sum_remove(s.sources, i, f);
                lemma_sum_update(rest, heir, y, f);
                lemma_count_add(rest[heir].clients, moved_all(gone.clients, y.mountpoint), id);
                lemma_count_same_ids(moved_all(gone.clients, y.mountpoint), gone.clients, id);
            }
            assert forall|a: int| 0 <= a < t.sources.len() implies (#[trigger] t.sources[a]).wf()
                && t.sources[a].burst_buffer.len() <= t.properties.limits.burst_size_of(
                t.sources[a].mountpoint,
            ) by {
                if a != heir {
                    assert(t.sources[a] == rest[a]);
                }
            }
            assert forall|a: int, b: int| 0 <= a < b < t.sources.len() implies (
            #[trigger] t.sources[a]).mountpoint != (#[trigger] t.sources[b]).mountpoint by {
                assert(rest[a].mountpoint != rest[b].mountpoint);
            }
        } else {
            lemma_kicked_all_wf(gone.clients);
            assert forall|id: u128| #[trigger] t.named(id) == s.named(id) by {
                let f = |z: SourceView| count_id(z.clients, id);
                lemma_sum_remove(s.sources, i, f);
                lemma_count_add(s.detached, kicked_all(gone.clients), id);
                lemma_count_same_ids(kicked_all(gone.clients), gone.clients, id);
            }
            assert forall|k: int| 0 <= k < t.detached.len() implies (#[trigger] t.detached[k]).wf() by {
                if k < s.detached.len() {
                    assert(t.detached[k] == s.detached[k]);
                } else {
                    assert(t.detached[k] == kicked_all(gone.clients)[k - s.detached.len()]);
                }
            }
        }
        assert forall|id: u128| #[trigger] t.named(id) <= 1 by {
            assert(s.named(id) <= 1);
        }
        assert forall|id: u128| #[trigger] t.named(id) >= 1 implies has_entry(t.clients, id) by {
            assert(s.named(id) >= 1);
        }
    }
}

/// Delivers `data` to the listeners of the source on `mount`. A listener
/// whose queue is closed, or would hold more than the queue size with it,
/// is removed from the source and told to leave. The burst buffer of the
/// source then holds the last bytes of the stream, up to its burst size.
pub fn broadcast_to_clients(server: &mut Server, mount: &str, data: Vec<u8>)
    requires
        old(server)@.wf(),
    ensures
        final(server)@ == old(server)@.after_broadcast(mount@, data@),
        final(server)@.wf(),
{
    let i = server.source_index(mount);
    proof {
        lemma_first_index(server@.sources, |y: SourceView| y.mountpoint == mount@);
        lemma_broadcast_keeps_wf(server@, mount@, data@);
    }
    if i >= server.sources.len() {
        return ;
    }
    let queue_size = server.properties.limits.queue_size;
    let burst_size = server.properties.limits.burst_size_for(mount);
    let ghost before = server@;
    let mut dropped = server.sources[i].broadcast(data, queue_size, burst_size);
    server.detached.append(&mut dropped);
    proof {
        assert(server@.sources =~= before.sources.update(
            i as int,
            before.sources[i as int].after_broadcast(data@, queue_size, burst_size),
        ));
        assert(server@.detached =~= before.detached + evicted(
            before.sources[i as int].clients,
            data@.len(),
            queue_size,
        ));
    }
}

impl Server {
    /// Takes in what the source on `mount` produced: sends it out and
    /// counts it. Empty data changes nothing.
    pub fn feed(&mut self, mount: &str, data: Vec<u8>)
        requires
            old(self)@.wf(),
        ensures
            final(self)@ == old(self)@.after_feed(mount@, data@),
            final(self)@.wf(),
    {
        let i = self.source_index(mount);
        let n = data.len();
        proof {
            lemma_broadcast_keeps_wf(self@, mount@, data@);
        }
        if n == 0 || i >= self.sources.len() {
            return ;
        }
        broadcast_to_clients(self, mount, data);
        let ghost t = self@;
        self.sources[i].stats.bytes_read = self.sources[i].stats.bytes_read.saturating_add(n);
        proof {
            assert(self@.sources =~= t.sources.update(
                i as int,
                t.sources[i as int].after_read(n as nat),
            ));
        }
    }

    /// Ends the source on `mount` and says whether there was one.
    pub fn unmount(&mut self, mount: &str) -> (r: bool)
        requires
            old(self)@.wf(),
        ensures
            final(self)@ == old(self)@.after_unmount(mount@),
            final(self)@.wf(),
            r == (mount_index(old(self)@.sources, mount@) < old(self)@.sources.len()),
    {
        let i = self.source_index(mount);
        proof {
            lemma_unmount_keeps_wf(self@, mount@);
        }
        if i >= self.sources.len() {
            return false;
        }
        let ghost before = self@;
        let source = self.sources.remove(i);
        let ghost rest = self@.sources;
        proof {
            assert(rest =~= before.sources.remove(i as int));
            assert(source@ == before.sources[i as int]);
        }
        let Source { clients, fallback, stats, relay, .. } = source;
        let heir = match &fallback {
            Some(name) => self.source_index(name.as_str()),
            None => self.sources.len(),
        };
        if heir < self.sources.len() {
            self.sources[heir].adopt(clients);
            proof {
                assert(self@.sources =~= rest.update(
                    heir as int,
                    rest[heir as int].adopting(client_views(clients@)),
                ));
            }
        } else {
            let mut clients = clients;
            Source::kick_all(&mut clients);
            self.detached.append(&mut clients);
            proof {
                assert(self@.detached =~= before.detached + kicked_all(
                    before.sources[i as int].clients,
                ));
            }
        }
        if relay {
            self.relay_count = self.relay_count - 1;
        } else {
            self.source_count = self.source_count - 1;
        }
        self.stats.session_bytes_read = self.stats.session_bytes_read.saturating_add(
            stats.bytes_read,
        );
        true
    }
}

} // verus!
