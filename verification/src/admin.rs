//! The control plane: what an administrator changes on the live server,
//! and what the server tells of itself.

use vstd::prelude::*;
use crate::broadcaster::{lemma_replace_source, saturating};
use crate::client;
use crate::client::{client_views, lemma_kicked_wf, ClientView};
use crate::icy::{copy_text, opt_metadata, Metadata, MetadataView};

use crate::lookup::{lemma_first_index, lemma_sum_push, lemma_sum_update, sum_over};
use crate::request::opt_text;
use crate::server::{has_entry, mount_index, Server, ServerView};
use crate::source;
use crate::source::{
    all_wf, count_id, lemma_adopting_wf, lemma_count_add, lemma_count_same_ids, lemma_seat,
    moved_all, seat, SourceView,
};

verus! {

/// Why an order of the administrator was not carried out.
#[derive(Clone, Copy, Debug, PartialEq, Eq, Structural)]
pub enum AdminError {
    /// No source is mounted there.
    UnknownMount,
    /// The source there has no such listener.
    UnknownId,
}

/// The metadata that a title and an address make; none where both are absent.
pub open spec fn metadata_from(song: Option<Seq<char>>, url: Option<Seq<char>>) -> Option<
    MetadataView,
> {
    if song is None && url is None {
        None
    } else {
        Some(MetadataView { title: song, url })
    }
}

/// What the server tells of one source.
pub struct MountInfo {
    pub mountpoint: String,
    pub fallback: Option<String>,
    pub metadata: Option<Metadata>,
    pub properties: crate::icy::Properties,
    pub stats: source::Stats,
    /// The identifiers of the listeners attached to the source.
    pub clients: Vec<u128>,
}

/// The identifiers of a list of listeners, in order.
pub open spec fn ids_of(clients: Seq<ClientView>) -> Seq<u128> {
    clients.map_values(|c: ClientView| c.properties.id)
}

impl MountInfo {
    /// Whether this is what there is to tell of `s`.
    pub open spec fn tells(&self, s: SourceView) -> bool {
        &&& self.mountpoint@ == s.mountpoint
        &&& opt_text(self.fallback) == s.fallback
        &&& opt_metadata(self.metadata) == s.metadata
        &&& self.properties@ == s.properties
        &&& self.stats == s.stats
        &&& self.clients@ == ids_of(s.clients)
    }
}

/// What the server tells of itself.
pub struct ServerInfo {
    pub mounts: Vec<String>,
    pub server_id: String,
    pub admin: String,
    pub host: String,
    pub location: String,
    pub description: String,
    pub start_time: u64,
    pub peak_listeners: usize,
    pub current_listeners: usize,
}

/// The totals of the session.
#[derive(Clone, Copy, Debug, PartialEq, Eq, Structural)]
pub struct Totals {
    /// Seconds since the server started.
    pub uptime: u64,
    pub peak_listeners: usize,
    pub session_bytes_read: usize,
    pub session_bytes_sent: usize,
}

/// The bytes sent to the listeners of a list.
pub open spec fn bytes_sent_to(clients: Seq<ClientView>) -> nat {
    sum_over(clients, |c: ClientView| c.stats.bytes_sent as nat)
}

/// The bytes read by the sources of a list.
pub open spec fn bytes_read_by(sources: Seq<SourceView>) -> nat {
    sum_over(sources, |s: SourceView| s.stats.bytes_read as nat)
}

/// The bytes sent to the listeners that are attached to the sources of a list.
pub open spec fn bytes_sent_by(sources: Seq<SourceView>) -> nat {
    sum_over(sources, |s: SourceView| bytes_sent_to(s.clients))
}

impl ServerView {
    /// The server with `x` in the place of the source on `mount`, if there is one.
    pub open spec fn with_source_as(self, mount: Seq<char>, x: SourceView) -> ServerView {
        let i = mount_index(self.sources, mount);
        if i < self.sources.len() {
            ServerView { sources: self.sources.update(i, x), ..self }
        } else {
            self
        }
    }

    /// The source on `mount`, if there is one.
    pub open spec fn source_on(self, mount: Seq<char>) -> Option<SourceView> {
        let i = mount_index(self.sources, mount);
        if i < self.sources.len() {
            Some(self.sources[i])
        } else {
            None
        }
    }

    /// The server after the listeners of the source on `mount` were moved
    /// to the source on `dest`. Nothing changes where one of the two is not
    /// mounted, or where they are the same.
    pub open spec fn after_move(self, mount: Seq<char>, dest: Seq<char>) -> ServerView {
        let i = mount_index(self.sources, mount);
        let d = mount_index(self.sources, dest);
        if i < self.sources.len() && d < self.sources.len() && i != d {
            ServerView {
                sources: self.sources.update(i, self.sources[i].deserted()).update(
                    d,
                    self.sources[d].adopting(self.sources[i].clients),
                ),
                ..self
            }
        } else {
            self
        }
    }

    /// The server after listener `id` of the source on `mount` was told to leave.
    pub open spec fn after_kill(self, mount: Seq<char>, id: u128) -> ServerView {
        match self.source_on(mount) {
            Some(s) => {
                let j = seat(s.clients, id);
                if j < s.clients.len() {
                    self.with_source_as(
                        mount,
                        SourceView { clients: s.clients.update(j, s.clients[j].kicked()), ..s },
                    )
                } else {
                    self
                }
            },
            None => self,
        }
    }

    /// What the order to tell a listener to leave comes to.
    pub open spec fn kill_outcome(self, mount: Seq<char>, id: Option<u128>) -> Result<
        (),
        AdminError,
    > {
        match self.source_on(mount) {
            None => Err(AdminError::UnknownMount),
            Some(s) => match id {
                None => Err(AdminError::UnknownId),
                Some(id) => if seat(s.clients, id) < s.clients.len() {
                    Ok(())
                } else {
                    Err(AdminError::UnknownId)
                },
            },
        }
    }

    /// The totals of the session at the time `now`: the bytes of the
    /// sources and listeners that are gone, and of those that are there.
    pub open spec fn totals(self, now: u64) -> Totals {
        Totals {
            uptime: if now >= self.stats.start_time {
                (now - self.stats.start_time) as u64
            } else {
                0
            },
            peak_listeners: self.stats.peak_listeners,
            session_bytes_read: saturating(
                self.stats.session_bytes_read + bytes_read_by(self.sources),
            ),
            session_bytes_sent: saturating(
                self.stats.session_bytes_sent + bytes_sent_by(self.sources),
            ),
        }
    }
}

/// A server in which a source was replaced by one that differs from it in
/// nothing that the soundness of the server rests on stays sound.
pub proof fn lemma_with_source_as_wf(s: ServerView, mount: Seq<char>, x: SourceView)
    requires
        s.wf(),
        s.source_on(mount) is Some ==> {
            let old_source = s.source_on(mount)->0;
            &&& x.wf()
            &&& x.mountpoint == old_source.mountpoint
            &&& x.relay == old_source.relay
            &&& x.burst_buffer == old_source.burst_buffer
            &&& ids_of(x.clients) == ids_of(old_source.clients)
        },
    ensures
        s.with_source_as(mount, x).wf(),
{
    let i = mount_index(s.sources, mount);
    lemma_first_index(s.sources, |y: SourceView| y.mountpoint == mount);
    if i < s.sources.len() {
        let old_source = s.sources[i];
        assert forall|id: u128|
            count_id(x.clients, id) + #[trigger] count_id(Seq::<ClientView>::empty(), id)
                == count_id(old_source.clients, id) by {
            assert(x.clients.len() == ids_of(x.clients).len());
            assert(old_source.clients.len() == ids_of(old_source.clients).len());
            assert forall|j: int| 0 <= j < x.clients.len() implies (
            #[trigger] x.clients[j]).properties.id == old_source.clients[j].properties.id by {
                assert(ids_of(x.clients)[j] == ids_of(old_source.clients)[j]);
            }
            lemma_count_same_ids(x.clients, old_source.clients, id);
        }
        lemma_replace_source(s, i, x, Seq::empty());
        assert(s.detached + Seq::<ClientView>::empty() =~= s.detached);
    }
}

/// Moving the listeners of one source to another leaves the server sound.
pub proof fn lemma_move_keeps_wf(s: ServerView, mount: Seq<char>, dest: Seq<char>)
    requires
        s.wf(),
    ensures
        s.after_move(mount, dest).wf(),
{
    let i = mount_index(s.sources, mount);
    let d = mount_index(s.sources, dest);
    lemma_first_index(s.sources, |y: SourceView| y.mountpoint == mount);
    lemma_first_index(s.sources, |y: SourceView| y.mountpoint == dest);
    if i < s.sources.len() && d < s.sources.len() && i != d {
        let t = s.after_move(mount, dest);
        let from = s.sources[i];
        let to = s.sources[d];
        assert(from.wf());
        assert(to.wf());
        assert(all_wf(from.clients));
        let x = from.deserted();
        let y = to.adopting(from.clients);
        lemma_adopting_wf(to, from.clients);
        let mid = s.sources.update(i, x);
        let relay = |z: SourceView|
            if z.relay {
                1nat
            } else {
                0nat
            };
        lemma_sum_update(s.sources, i, x, relay);
        lemma_sum_update(mid, d, y, relay);
        assert forall|id: u128| #[trigger] t.named(id) == s.named(id) by {
            let f = |z: SourceView| count_id(z.clients, id);
            lemma_sum_update(s.sources, i, x, f);
            lemma_sum_update(mid, d, y, f);
            lemma_count_add(to.clients, moved_all(from.clients, to.mountpoint), id);
            lemma_count_same_ids(moved_all(from.clients, to.mountpoint), from.clients, id);
        }
        assert forall|id: u128| #[trigger] t.named(id) <= 1 by {
            assert(s.named(id) <= 1);
        }
        assert forall|id: u128| #[trigger] t.named(id) >= 1 implies has_entry(t.clients, id) by {
            assert(s.named(id) >= 1);
        }
        assert forall|a: int, b: int| 0 <= a < b < t.sources.len() implies (
        #[trigger] t.sources[a]).mountpoint != (#[trigger] t.sources[b]).mountpoint by {
            assert(s.sources[a].mountpoint != s.sources[b].mountpoint);
        }
        assert forall|a: int| 0 <= a < t.sources.len() implies (#[trigger] t.sources[a]).wf()
            && t.sources[a].burst_buffer.len() <= t.properties.limits.burst_size_of(
            t.sources[a].mountpoint,
        ) by {
            assert(s.sources[a].wf());
            assert(s.sources[a].burst_buffer.len() <= s.properties.limits.burst_size_of(
                s.sources[a].mountpoint,
            ));
        }
    }
}

/// Telling a listener to leave keeps the server sound.
pub proof fn lemma_kill_keeps_wf(s: ServerView, mount: Seq<char>, id: u128)
    requires
        s.wf(),
    ensures
        s.after_kill(mount, id).wf(),
{
    let i = mount_index(s.sources, mount);
    lemma_first_index(s.sources, |y: SourceView| y.mountpoint == mount);
    if i < s.sources.len() {
        let old_source = s.sources[i];
        assert(old_source.wf());
        let j = seat(old_source.clients, id);
        lemma_seat(old_source.clients, id);
        if j < old_source.clients.len() {
            let x = SourceView {
                clients: old_source.clients.update(j, old_source.clients[j].kicked()),
                ..old_source
            };
            lemma_kicked_wf(old_source.clients[j]);
            assert forall|k: int| 0 <= k < x.clients.len() implies (#[trigger] x.clients[k]).wf()
                && x.clients[k].source == x.mountpoint by {
                assert(old_source.clients[k].wf());
            }
            assert(ids_of(x.clients) =~= ids_of(old_source.clients));
            lemma_with_source_as_wf(s, mount, x);
        }
    }
}

impl Server {
    /// Replaces the metadata of the source on `mount` by what `song` and
    /// `url` make, and encodes it anew.
    pub fn update_metadata(&mut self, mount: &str, song: Option<String>, url: Option<String>) -> (r:
        Result<(), AdminError>)
        requires
            old(self)@.wf(),
        ensures
            final(self)@.wf(),
            match old(self)@.source_on(mount@) {
                Some(s) => r is Ok && final(self)@ == old(self)@.with_source_as(
                    mount@,
                    s.with_metadata(metadata_from(opt_text(song), opt_text(url))),
                ),
                None => r == Err::<(), AdminError>(AdminError::UnknownMount) && final(self)@
                    == old(self)@,
            },
    {
        let i = self.source_index(mount);
        if i >= self.sources.len() {
            return Err(AdminError::UnknownMount);
        }
        let ghost before = self@;
        let metadata = if song.is_none() && url.is_none() {
            None
        } else {
            Some(Metadata { title: song, url })
        };
        self.sources[i].set_metadata(metadata);
        proof {
            let s = before.sources[i as int];
            let x = s.with_metadata(metadata_from(opt_text(song), opt_text(url)));
            assert(self@.sources =~= before.sources.update(i as int, x));
            assert(s.wf());
            lemma_with_source_as_wf(before, mount@, x);
        }
        Ok(())
    }

    /// Sets, or clears, the mountpoint that takes over the listeners of
    /// the source on `mount` when it ends.
    pub fn set_fallback(&mut self, mount: &str, fallback: Option<String>) -> (r: Result<
        (),
        AdminError,
    >)
        requires
            old(self)@.wf(),
        ensures
            final(self)@.wf(),
            match old(self)@.source_on(mount@) {
                Some(s) => r is Ok && final(self)@ == old(self)@.with_source_as(
                    mount@,
                    SourceView { fallback: opt_text(fallback), ..s },
                ),
                None => r == Err::<(), AdminError>(AdminError::UnknownMount) && final(self)@
                    == old(self)@,
            },
    {
        let i = self.source_index(mount);
        if i >= self.sources.len() {
            return Err(AdminError::UnknownMount);
        }
        let ghost before = self@;
        self.sources[i].fallback = fallback;
        proof {
            let s = before.sources[i as int];
            let x = SourceView { fallback: opt_text(fallback), ..s };
            assert(self@.sources =~= before.sources.update(i as int, x));
            assert(s.wf());
            lemma_with_source_as_wf(before, mount@, x);
        }
        Ok(())
    }

    /// Asks the feeder of the source on `mount` to stop.
    pub fn kill_source(&mut self, mount: &str) -> (r: Result<(), AdminError>)
        requires
            old(self)@.wf(),
        ensures
            final(self)@.wf(),
            match old(self)@.source_on(mount@) {
                Some(s) => r is Ok && final(self)@ == old(self)@.with_source_as(
                    mount@,
                    SourceView { disconnect_flag: true, ..s },
                ),
                None => r == Err::<(), AdminError>(AdminError::UnknownMount) && final(self)@
                    == old(self)@,
            },
    {
        let i = self.source_index(mount);
        if i >= self.sources.len() {
            return Err(AdminError::UnknownMount);
        }
        let ghost before = self@;
        self.sources[i].disconnect_flag = true;
        proof {
            let s = before.sources[i as int];
            let x = SourceView { disconnect_flag: true, ..s };
            assert(self@.sources =~= before.sources.update(i as int, x));
            assert(s.wf());
            lemma_with_source_as_wf(before, mount@, x);
        }
        Ok(())
    }

    /// Whether the feeder of the source on `mount` was asked to stop, or
    /// no source is mounted there.
    pub fn should_stop(&self, mount: &str) -> (r: bool)
        ensures
            r == match self@.source_on(mount@) {
                Some(s) => s.disconnect_flag,
                None => true,
            },
    {
        let i = self.source_index(mount);
        if i < self.sources.len() {
            self.sources[i].disconnect_flag
        } else {
            true
        }
    }

    /// Moves every listener of the source on `mount` to the source on
    /// `dest`, which from then on feeds them.
    pub fn move_clients(&mut self, mount: &str, dest: &str) -> (r: Result<(), AdminError>)
        requires
            old(self)@.wf(),
        ensures
            final(self)@.wf(),
            final(self)@ == old(self)@.after_move(mount@, dest@),
            r is Ok <==> old(self)@.source_on(mount@) is Some && old(self)@.source_on(dest@) is Some,
            r is Err ==> r == Err::<(), AdminError>(AdminError::UnknownMount),
    {
        let i = self.source_index(mount);
        let d = self.source_index(dest);
        if i >= self.sources.len() || d >= self.sources.len() {
            return Err(AdminError::UnknownMount);
        }
        if i == d {
            return Ok(());
        }
        let ghost before = self@;
        proof {
            lemma_move_keeps_wf(before, mount@, dest@);
        }
        let mut moved: Vec<client::Client> = Vec::new();
        std::mem::swap(&mut self.sources[i].clients, &mut moved);
        proof {
            assert(client_views(self.sources@[i as int].clients@) =~= Seq::<ClientView>::empty());
            assert(self@.sources =~= before.sources.update(
                i as int,
                before.sources[i as int].deserted(),
            ));
        }
        let ghost mid = self@.sources;
        self.sources[d].adopt(moved);
        proof {
            assert(self@.sources =~= mid.update(
                d as int,
                before.sources[d as int].adopting(before.sources[i as int].clients),
            ));
        }
        Ok(())
    }

    /// Tells listener `id` of the source on `mount` to leave. The order
    /// fails where no source is mounted there, where `id` is no identifier
    /// at all, and where the source has no such listener.
    pub fn kill_listener(&mut self, mount: &str, id: Option<u128>) -> (r: Result<(), AdminError>)
        requires
            old(self)@.wf(),
        ensures
            final(self)@.wf(),
            r == old(self)@.kill_outcome(mount@, id),
            final(self)@ == match (r, id) {
                (Ok(()), Some(id)) => old(self)@.after_kill(mount@, id),
                _ => old(self)@,
            },
    {
        let i = self.source_index(mount);
        if i >= self.sources.len() {
            return Err(AdminError::UnknownMount);
        }
        match id {
            None => Err(AdminError::UnknownId),
            Some(id) => {
                let j = self.sources[i].position_of(id);
                if j >= self.sources[i].clients.len() {
                    return Err(AdminError::UnknownId);
                }
                let ghost before = self@;
                proof {
                    lemma_kill_keeps_wf(before, mount@, id);
                }
                self.sources[i].clients[j].kick();
                proof {
                    let s = before.sources[i as int];
                    assert(client_views(self.sources@[i as int].clients@) =~= s.clients.update(
                        j as int,
                        s.clients[j as int].kicked(),
                    ));
                    assert(self@.sources =~= before.sources.update(
                        i as int,
                        SourceView {
                            clients: s.clients.update(j as int, s.clients[j as int].kicked()),
                            ..s
                        },
                    ));
                }
                Ok(())
            },
        }
    }

    /// What is known of each listener of the source on `mount`, and what is
    /// counted for it.
    pub fn list_clients(&self, mount: &str) -> (r: Option<Vec<(client::Properties, client::Stats)>>)
        ensures
            match (r, self@.source_on(mount@)) {
                (Some(list), Some(s)) => {
                    &&& list@.len() == s.clients.len()
                    &&& forall|j: int|
                        0 <= j < list@.len() ==> (#[trigger] list@[j]).0@ == s.clients[j].properties
                            && list@[j].1 == s.clients[j].stats
                },
                (None, None) => true,
                _ => false,
            },
    {
        let i = self.source_index(mount);
        if i >= self.sources.len() {
            return None;
        }
        let source = &self.sources[i];
        let mut list: Vec<(client::Properties, client::Stats)> = Vec::new();
        let mut j: usize = 0;
        while j < source.clients.len()
            invariant
                j <= source.clients.len(),
                list@.len() == j,
                forall|k: int|
                    0 <= k < j ==> (#[trigger] list@[k]).0@ == source@.clients[k].properties
                        && list@[k].1 == source@.clients[k].stats,
            decreases source.clients.len() - j,
        {
            list.push((source.clients[j].properties.clone(), source.clients[j].stats));
            j += 1;
        }
        Some(list)
    }

    /// What there is to tell of the source at index `i`.
    pub fn describe(&self, i: usize) -> (r: MountInfo)
        requires
            i < self.sources.len(),
        ensures
            r.tells(self@.sources[i as int]),
    {
        let source = &self.sources[i];
        let mut ids: Vec<u128> = Vec::new();
        let mut j: usize = 0;
        while j < source.clients.len()
            invariant
                j <= source.clients.len(),
                ids@ == ids_of(source@.clients.take(j as int)),
            decreases source.clients.len() - j,
        {
            ids.push(source.clients[j].properties.id);
            assert(ids@ =~= ids_of(source@.clients.take(j + 1)));
            j += 1;
        }
        assert(source@.clients.take(j as int) =~= source@.clients);
        MountInfo {
            mountpoint: source.mountpoint.clone(),
            fallback: copy_text(&source.fallback),
            metadata: match &source.metadata {
                Some(m) => Some(m.clone()),
                None => None,
            },
            properties: source.properties.clone(),
            stats: source.stats,
            clients: ids,
        }
    }

    /// What there is to tell of every source, in order.
    pub fn list_mounts(&self) -> (r: Vec<MountInfo>)
        ensures
            r@.len() == self@.sources.len(),
            forall|i: int| 0 <= i < r@.len() ==> (#[trigger] r@[i]).tells(self@.sources[i]),
    {
        let mut list: Vec<MountInfo> = Vec::new();
        let mut i: usize = 0;
        while i < self.sources.len()
            invariant
                i <= self.sources.len(),
                list@.len() == i,
                forall|k: int| 0 <= k < i ==> (#[trigger] list@[k]).tells(self@.sources[k]),
            decreases self.sources.len() - i,
        {
            list.push(self.describe(i));
            i += 1;
        }
        list
    }

    /// What there is to tell of the source on `mount`, if there is one.
    pub fn mount_info(&self, mount: &str) -> (r: Option<MountInfo>)
        ensures
            match (r, self@.source_on(mount@)) {
                (Some(info), Some(s)) => info.tells(s),
                (None, None) => true,
                _ => false,
            },
    {
        let i = self.source_index(mount);
        if i < self.sources.len() {
            Some(self.describe(i))
        } else {
            None
        }
    }

    /// What the server tells of itself: its mountpoints, how it names
    /// itself, and how many listeners it has and had at most.
    pub fn server_info(&self) -> (r: ServerInfo)
        ensures
            r.mounts@.len() == self@.sources.len(),
            forall|i: int|
                0 <= i < r.mounts@.len() ==> (#[trigger] r.mounts@[i])@
                    == self@.sources[i].mountpoint,
            r.server_id@ == self.properties.server_id@,
            r.admin@ == self.properties.admin@,
            r.host@ == self.properties.host@,
            r.location@ == self.properties.location@,
            r.description@ == self.properties.description@,
            r.start_time == self.stats.start_time,
            r.peak_listeners == self.stats.peak_listeners,
            r.current_listeners == self@.clients.len(),
    {
        let mut mounts: Vec<String> = Vec::new();
        let mut i: usize = 0;
        while i < self.sources.len()
            invariant
                i <= self.sources.len(),
                mounts@.len() == i,
                forall|k: int|
                    0 <= k < i ==> (#[trigger] mounts@[k])@ == self@.sources[k].mountpoint,
            decreases self.sources.len() - i,
        {
            mounts.push(self.sources[i].mountpoint.clone());
            i += 1;
        }
        ServerInfo {
            mounts,
            server_id: self.properties.server_id.clone(),
            admin: self.properties.admin.clone(),
            host: self.properties.host.clone(),
            location: self.properties.location.clone(),
            description: self.properties.description.clone(),
            start_time: self.stats.start_time,
            peak_listeners: self.stats.peak_listeners,
            current_listeners: self.clients.len(),
        }
    }

    /// The totals of the session at the time `now`, in seconds since the epoch.
    pub fn stats(&self, now: u64) -> (r: Totals)
        ensures
            r == self@.totals(now),
    {
        let mut read: usize = self.stats.session_bytes_read;
        let mut sent: usize = self.stats.session_bytes_sent;
        let ghost by_source = |s: SourceView| s.stats.bytes_read as nat;
        let ghost to_source = |s: SourceView| bytes_sent_to(s.clients);
        let mut i: usize = 0;
        assert(self@.sources.take(0) =~= Seq::<SourceView>::empty());
        while i < self.sources.len()
            invariant
                i <= self.sources.len(),
                by_source == (|s: SourceView| s.stats.bytes_read as nat),
                to_source == (|s: SourceView| bytes_sent_to(s.clients)),
                read == saturating(
                    self.stats.session_bytes_read + sum_over(
                        self@.sources.take(i as int),
                        by_source,
                    ),
                ),
                sent == saturating(
                    self.stats.session_bytes_sent + sum_over(
                        self@.sources.take(i as int),
                        to_source,
                    ),
                ),
            decreases self.sources.len() - i,
        {
            let source = &self.sources[i];
            read = read.saturating_add(source.stats.bytes_read);
            let ghost to_client = |c: ClientView| c.stats.bytes_sent as nat;
            let ghost sent_before = sent;
            let mut here: usize = 0;
            let mut j: usize = 0;
            assert(source@.clients.take(0) =~= Seq::<ClientView>::empty());
            while j < source.clients.len()
                invariant
                    j <= source.clients.len(),
                    to_client == (|c: ClientView| c.stats.bytes_sent as nat),
                    here == saturating(sum_over(source@.clients.take(j as int), to_client) as int),
                decreases source.clients.len() - j,
            {
                here = here.saturating_add(source.clients[j].stats.bytes_sent);
                proof {
                    assert(source@.clients.take(j + 1) =~= source@.clients.take(j as int).push(
                        source@.clients[j as int],
                    ));
                    lemma_sum_push(
                        source@.clients.take(j as int),
                        source@.clients[j as int],
                        to_client,
                    );
                }
                j += 1;
            }
            sent = sent.saturating_add(here);
            proof {
                assert(source@.clients.take(j as int) =~= source@.clients);
                assert(self@.sources.take(i + 1) =~= self@.sources.take(i as int).push(
                    self@.sources[i as int],
                ));
                lemma_sum_push(self@.sources.take(i as int), self@.sources[i as int], by_source);
                lemma_sum_push(self@.sources.take(i as int), self@.sources[i as int], to_source);
            }
            i += 1;
        }
        assert(self@.sources.take(i as int) =~= self@.sources);
        Totals {
            uptime: if now >= self.stats.start_time {
                now - self.stats.start_time
            } else {
                0
            },
            peak_listeners: self.stats.peak_listeners,
            session_bytes_read: read,
            session_bytes_sent: sent,
        }
    }
}

} // verus!
