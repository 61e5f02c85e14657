//! The server: its configuration, the sources that are mounted on it and
//! the listeners that it knows.

use vstd::prelude::*;
use crate::client;
use crate::client::{client_views, Client, ClientView};
use crate::lookup::{
    first_index, lemma_first_index, lemma_first_index_is, lemma_sum_at, lemma_sum_push, sum_over,
};
use crate::source;
use crate::source::{count_id, source_views, Source, SourceView};
use crate::text::str_eq;

verus! {

/// What is counted for the server as a whole.
#[derive(Clone, Copy, Debug, PartialEq, Eq, Structural)]
pub struct Stats {
    pub start_time: u64,
    pub peak_listeners: usize,
    pub session_bytes_sent: usize,
    pub session_bytes_read: usize,
}

impl Stats {
    /// Nothing counted yet.
    pub fn new() -> (r: Stats)
        ensures
            r == (Stats {
                start_time: 0,
                peak_listeners: 0,
                session_bytes_sent: 0,
                session_bytes_read: 0,
            }),
    {
        Stats { start_time: 0, peak_listeners: 0, session_bytes_sent: 0, session_bytes_read: 0 }
    }
}

/// A user name with its password.
#[derive(Clone, Debug, PartialEq, Eq)]
pub struct Credential {
    pub username: String,
    pub password: String,
}

/// The limits of one mountpoint, with its name.
#[derive(Clone, Debug, PartialEq, Eq)]
pub struct MountLimits {
    pub mountpoint: String,
    pub limits: source::Limits,
}

/// The limits that the server keeps to.
#[derive(Clone, Debug, PartialEq, Eq)]
pub struct Limits {
    /// Listeners, over all sources.
    pub clients: usize,
    /// Sources that are not relays.
    pub sources: usize,
    /// Sources of both kinds.
    pub total_sources: usize,
    /// Bytes that may wait in the queue of one listener.
    pub queue_size: usize,
    /// Bytes of a stream kept for listeners that join.
    pub burst_size: usize,
    /// Milliseconds in which the head of a request must come.
    pub header_timeout: u64,
    /// Milliseconds in which a source must send something.
    pub source_timeout: u64,
    /// Bytes that the head of a message may have.
    pub http_max_length: usize,
    /// Redirects that are followed when a relay is fetched.
    pub http_max_redirects: usize,
    /// The limits of single mountpoints; the first entry of a name counts.
    pub source_limits: Vec<MountLimits>,
}

/// The server from which relays are pulled.
#[derive(Clone, Debug, PartialEq, Eq)]
pub struct Master {
    pub enabled: bool,
    pub url: String,
    /// Seconds between two looks at the list of its mountpoints.
    pub update_interval: u64,
    pub relay_limit: usize,
}

/// The configuration of the server.
#[derive(Clone, Debug, PartialEq, Eq)]
pub struct Properties {
    pub address: String,
    pub port: u16,
    pub metaint: usize,
    pub server_id: String,
    pub admin: String,
    pub host: String,
    pub location: String,
    pub description: String,
    pub limits: Limits,
    pub users: Vec<Credential>,
    pub master_server: Master,
}

pub fn default_property_address() -> (r: String)
    ensures
        r@ == "0.0.0.0"@,
{
    "0.0.0.0".to_owned()
}

pub fn default_property_port() -> (r: u16)
    ensures
        r == 8000,
{
    8000
}

/// The bytes of audio between two metadata blocks.
pub fn default_property_metaint() -> (r: usize)
    ensures
        r == 16000,
{
    16000
}

pub fn default_property_server_id() -> (r: String)
    ensures
        r@ == "Rusty Zenith 0.1.0"@,
{
    "Rusty Zenith 0.1.0".to_owned()
}

pub fn default_property_admin() -> (r: String)
    ensures
        r@ == "admin@localhost"@,
{
    "admin@localhost".to_owned()
}

pub fn default_property_host() -> (r: String)
    ensures
        r@ == "localhost"@,
{
    "localhost".to_owned()
}

pub fn default_property_location() -> (r: String)
    ensures
        r@ == "1.048596"@,
{
    "1.048596".to_owned()
}

pub fn default_property_description() -> (r: String)
    ensures
        r@ == "Yet Another Internet Radio"@,
{
    "Yet Another Internet Radio".to_owned()
}

/// The users of a fresh configuration: `admin` and `source`, both with the
/// password `hackme`.
pub fn default_property_users() -> (r: Vec<Credential>)
    ensures
        r@.len() == 2,
        r@[0].username@ == "admin"@,
        r@[0].password@ == "hackme"@,
        r@[1].username@ == "source"@,
        r@[1].password@ == "hackme"@,
{
    let mut users: Vec<Credential> = Vec::new();
    users.push(Credential { username: "admin".to_owned(), password: "hackme".to_owned() });
    users.push(Credential { username: "source".to_owned(), password: "hackme".to_owned() });
    users
}

pub fn default_property_limits_clients() -> (r: usize)
    ensures
        r == 400,
{
    400
}

pub fn default_property_limits_sources() -> (r: usize)
    ensures
        r == 4,
{
    4
}

pub fn default_property_limits_total_sources() -> (r: usize)
    ensures
        r == 4,
{
    4
}

pub fn default_property_limits_queue_size() -> (r: usize)
    ensures
        r == 102400,
{
    102400
}

pub fn default_property_limits_burst_size() -> (r: usize)
    ensures
        r == 65536,
{
    65536
}

pub fn default_property_limits_header_timeout() -> (r: u64)
    ensures
        r == 15000,
{
    15000
}

pub fn default_property_limits_source_timeout() -> (r: u64)
    ensures
        r == 10000,
{
    10000
}

pub fn default_property_limits_http_max_length() -> (r: usize)
    ensures
        r == 8192,
{
    8192
}

pub fn default_property_limits_http_max_redirects() -> (r: usize)
    ensures
        r == 5,
{
    5
}

pub fn default_property_limits_source_mountpoint() -> (r: String)
    ensures
        r@ == "/radio"@,
{
    "/radio".to_owned()
}

/// The limits of single mountpoints in a fresh configuration: those of
/// `/radio`, which are the general ones.
pub fn default_property_limits_source_limits() -> (r: Vec<MountLimits>)
    ensures
        r@.len() == 1,
        r@[0].mountpoint@ == "/radio"@,
        r@[0].limits == (source::Limits { clients: 400, burst_size: 65536, source_timeout: 10000 }),
{
    let mut limits: Vec<MountLimits> = Vec::new();
    limits.push(
        MountLimits {
            mountpoint: default_property_limits_source_mountpoint(),
            limits: source::Limits {
                clients: default_property_limits_clients(),
                burst_size: default_property_limits_burst_size(),
                source_timeout: default_property_limits_source_timeout(),
            },
        },
    );
    limits
}

pub fn default_property_limits() -> (r: Limits)
    ensures
        r.clients == 400,
        r.sources == 4,
        r.total_sources == 4,
        r.queue_size == 102400,
        r.burst_size == 65536,
        r.header_timeout == 15000,
        r.source_timeout == 10000,
        r.http_max_length == 8192,
        r.http_max_redirects == 5,
        r.source_limits@.len() == 1,
        r.source_limits@[0].mountpoint@ == "/radio"@,
        r.source_limits@[0].limits == (source::Limits {
            clients: 400,
            burst_size: 65536,
            source_timeout: 10000,
        }),
{
    Limits {
        clients: default_property_limits_clients(),
        sources: default_property_limits_sources(),
        total_sources: default_property_limits_total_sources(),
        queue_size: default_property_limits_queue_size(),
        burst_size: default_property_limits_burst_size(),
        header_timeout: default_property_limits_header_timeout(),
        source_timeout: default_property_limits_source_timeout(),
        source_limits: default_property_limits_source_limits(),
        http_max_length: default_property_limits_http_max_length(),
        http_max_redirects: default_property_limits_http_max_redirects(),
    }
}

pub fn default_property_master_server_enabled() -> (r: bool)
    ensures
        !r,
{
    false
}

/// The local host, at the port that follows the default one.
pub fn default_property_master_server_url() -> (r: String)
    ensures
        r@ == "http://localhost:8001"@,
{
    "http://localhost:8001".to_owned()
}

pub fn default_property_master_server_update_interval() -> (r: u64)
    ensures
        r == 120,
{
    120
}

pub fn default_property_master_server_relay_limit() -> (r: usize)
    ensures
        r == 4,
{
    4
}

pub fn default_property_master_server() -> (r: Master)
    ensures
        !r.enabled,
        r.url@ == "http://localhost:8001"@,
        r.update_interval == 120,
        r.relay_limit == 4,
{
    Master {
        enabled: default_property_master_server_enabled(),
        url: default_property_master_server_url(),
        update_interval: default_property_master_server_update_interval(),
        relay_limit: default_property_master_server_relay_limit(),
    }
}

impl Properties {
    /// The configuration in which every key has its default.
    pub fn new() -> (r: Properties)
        ensures
            r.address@ == "0.0.0.0"@,
            r.port == 8000,
            r.metaint == 16000,
            r.server_id@ == "Rusty Zenith 0.1.0"@,
            r.admin@ == "admin@localhost"@,
            r.host@ == "localhost"@,
            r.location@ == "1.048596"@,
            r.description@ == "Yet Another Internet Radio"@,
            r.limits.clients == 400,
            r.limits.sources == 4,
            r.limits.total_sources == 4,
            r.limits.queue_size == 102400,
            r.limits.burst_size == 65536,
            r.limits.header_timeout == 15000,
            r.limits.source_timeout == 10000,
            r.limits.http_max_length == 8192,
            r.limits.http_max_redirects == 5,
            r.limits.source_limits@.len() == 1,
            r.limits.source_limits@[0].mountpoint@ == "/radio"@,
            r.limits.source_limits@[0].limits == (source::Limits {
                clients: 400,
                burst_size: 65536,
                source_timeout: 10000,
            }),
            r.users@.len() == 2,
            r.users@[0].username@ == "admin"@,
            r.users@[0].password@ == "hackme"@,
            r.users@[1].username@ == "source"@,
            r.users@[1].password@ == "hackme"@,
            !r.master_server.enabled,
            r.master_server.url@ == "http://localhost:8001"@,
            r.master_server.update_interval == 120,
            r.master_server.relay_limit == 4,
    {
        Properties {
            address: default_property_address(),
            port: default_property_port(),
            metaint: default_property_metaint(),
            server_id: default_property_server_id(),
            admin: default_property_admin(),
            host: default_property_host(),
            location: default_property_location(),
            description: default_property_description(),
            limits: default_property_limits(),
            users: default_property_users(),
            master_server: default_property_master_server(),
        }
    }
}

/// Whether some user has this name and this password.
pub open spec fn is_user(users: Seq<Credential>, username: Seq<char>, password: Seq<char>) -> bool {
    exists|i: int|
        0 <= i < users.len() && (#[trigger] users[i]).username@ == username && users[i].password@
            == password
}

/// Whether the configuration knows a user of this name with this password.
pub fn validate_user(properties: &Properties, username: String, password: String) -> (r: bool)
    ensures
        r == is_user(properties.users@, username@, password@),
{
    let mut i: usize = 0;
    while i < properties.users.len()
        invariant
            i <= properties.users.len(),
            forall|k: int|
                0 <= k < i ==> !((#[trigger] properties.users@[k]).username@ == username@
                    && properties.users@[k].password@ == password@),
        decreases properties.users.len() - i,
    {
        let user = &properties.users[i];
        if user.username == username && user.password == password {
            return true;
        }
        i += 1;
    }
    false
}

/// The limits of the first entry named `mount`, if there is one.
pub open spec fn mount_limits(entries: Seq<MountLimits>, mount: Seq<char>) -> Option<
    source::Limits,
> {
    let at = first_index(entries, |e: MountLimits| e.mountpoint@ == mount);
    if at < entries.len() {
        Some(entries[at].limits)
    } else {
        None
    }
}

impl Limits {
    /// The limits that are set for `mount` alone, if any are.
    pub fn for_mount(&self, mount: &str) -> (r: Option<source::Limits>)
        ensures
            r == mount_limits(self.source_limits@, mount@),
    {
        let ghost p = |e: MountLimits| e.mountpoint@ == mount@;
        let mut i: usize = 0;
        while i < self.source_limits.len()
            invariant
                i <= self.source_limits.len(),
                p == (|e: MountLimits| e.mountpoint@ == mount@),
                forall|k: int| 0 <= k < i ==> !p(#[trigger] self.source_limits@[k]),
            decreases self.source_limits.len() - i,
        {
            if str_eq(self.source_limits[i].mountpoint.as_str(), mount) {
                proof {
                    lemma_first_index_is(self.source_limits@, p, i as int);
                }
                return Some(self.source_limits[i].limits);
            }
            i += 1;
        }
        proof {
            lemma_first_index_is(self.source_limits@, p, i as int);
        }
        None
    }

    /// The size of the burst buffer of `mount`: its own where it has limits
    /// of its own, the general one where it has none.
    pub open spec fn burst_size_of(&self, mount: Seq<char>) -> usize {
        match mount_limits(self.source_limits@, mount) {
            Some(own) => own.burst_size,
            None => self.burst_size,
        }
    }

    /// The time in milliseconds that the source on `mount` has to send
    /// something: its own where it has limits of its own, the time for a
    /// request head where it has none.
    pub open spec fn timeout_of(&self, mount: Seq<char>) -> u64 {
        match mount_limits(self.source_limits@, mount) {
            Some(own) => own.source_timeout,
            None => self.header_timeout,
        }
    }

    /// The size of the burst buffer of `mount`.
    pub fn burst_size_for(&self, mount: &str) -> (r: usize)
        ensures
            r == self.burst_size_of(mount@),
    {
        match self.for_mount(mount) {
            Some(own) => own.burst_size,
            None => self.burst_size,
        }
    }

    /// The time that the source on `mount` has to send something.
    pub fn source_timeout_for(&self, mount: &str) -> (r: u64)
        ensures
            r == self.timeout_of(mount@),
    {
        match self.for_mount(mount) {
            Some(own) => own.source_timeout,
            None => self.header_timeout,
        }
    }
}

/// The server: the sources mounted on it, an entry for every listener it
/// knows, and the listeners that were removed from their source and have
/// not left yet.
pub struct Server {
    /// The sources; no two on one mountpoint.
    pub sources: Vec<Source>,
    /// An entry for each listener; no two with one identifier.
    pub clients: Vec<client::Properties>,
    /// Listeners that were told to leave and whose connection is still open.
    pub detached: Vec<Client>,
    /// The sources that are not relays.
    pub source_count: usize,
    /// The sources that are relays.
    pub relay_count: usize,
    pub properties: Properties,
    pub stats: Stats,
}

pub struct ServerView {
    pub sources: Seq<SourceView>,
    pub clients: Seq<client::PropertiesView>,
    pub detached: Seq<ClientView>,
    pub source_count: usize,
    pub relay_count: usize,
    pub properties: Properties,
    pub stats: Stats,
}

/// The views of a list of entries, in order.
pub open spec fn entry_views(entries: Seq<client::Properties>) -> Seq<client::PropertiesView> {
    entries.map_values(|p: client::Properties| p@)
}

impl View for Server {
    type V = ServerView;

    open spec fn view(&self) -> ServerView {
        ServerView {
            sources: source_views(self.sources@),
            clients: entry_views(self.clients@),
            detached: client_views(self.detached@),
            source_count: self.source_count,
            relay_count: self.relay_count,
            properties: self.properties,
            stats: self.stats,
        }
    }
}

/// The index of the source on `mount`, or the number of sources where
/// there is none.
pub open spec fn mount_index(sources: Seq<SourceView>, mount: Seq<char>) -> int {
    first_index(sources, |s: SourceView| s.mountpoint == mount)
}

/// The index of the entry of listener `id`, or the number of entries where
/// there is none.
pub open spec fn entry_index(entries: Seq<client::PropertiesView>, id: u128) -> int {
    first_index(entries, |p: client::PropertiesView| p.id == id)
}

/// Whether listener `id` has an entry.
pub open spec fn has_entry(entries: Seq<client::PropertiesView>, id: u128) -> bool {
    entry_index(entries, id) < entries.len()
}

/// How many of the sources are relays.
pub open spec fn count_relays(sources: Seq<SourceView>) -> nat {
    sum_over(
        sources,
        |s: SourceView|
            if s.relay {
                1nat
            } else {
                0nat
            },
    )
}

/// How many listeners with the identifier `id` are attached to the sources.
pub open spec fn attached_count(sources: Seq<SourceView>, id: u128) -> nat {
    sum_over(sources, |s: SourceView| count_id(s.clients, id))
}

/// Why a source is not admitted.
#[derive(Clone, Copy, Debug, PartialEq, Eq, Structural)]
pub enum AdmissionError {
    /// A source is mounted there already.
    MountInUse,
    /// There are as many sources as the limit for sources allows.
    SourceLimit,
    /// There are as many relays as the limit for relays allows.
    RelayLimit,
    /// There are as many sources of both kinds as the limit allows.
    TotalSourceLimit,
}

/// A source at the start of its stream.
pub open spec fn fresh_source(
    mountpoint: Seq<char>,
    properties: crate::icy::PropertiesView,
    start_time: u64,
    relay: bool,
) -> SourceView {
    SourceView {
        mountpoint,
        properties,
        metadata: None,
        metadata_vec: seq![0u8],
        clients: Seq::empty(),
        burst_buffer: Seq::empty(),
        stats: source::Stats { start_time, bytes_read: 0, peak_listeners: 0 },
        fallback: None,
        disconnect_flag: false,
        relay,
    }
}

impl ServerView {
    /// How many listeners with the identifier `id` there are, attached or not.
    pub open spec fn named(self, id: u128) -> nat {
        attached_count(self.sources, id) + count_id(self.detached, id)
    }

    /// What holds of the server between any two operations.
    pub open spec fn wf(self) -> bool {
        &&& forall|i: int| 0 <= i < self.sources.len() ==> (#[trigger] self.sources[i]).wf()
        &&& forall|i: int, j: int|
            0 <= i < j < self.sources.len() ==> (#[trigger] self.sources[i]).mountpoint != (
            #[trigger] self.sources[j]).mountpoint
        &&& forall|i: int|
            0 <= i < self.sources.len() ==> (#[trigger] self.sources[i]).burst_buffer.len()
                <= self.properties.limits.burst_size_of(self.sources[i].mountpoint)
        &&& self.relay_count == count_relays(self.sources)
        &&& self.source_count + self.relay_count == self.sources.len()
        &&& forall|id: u128| #[trigger] self.named(id) <= 1
        &&& forall|id: u128| #[trigger] self.named(id) >= 1 ==> has_entry(self.clients, id)
        &&& forall|a: int, b: int|
            0 <= a < b < self.clients.len() ==> (#[trigger] self.clients[a]).id != (
            #[trigger] self.clients[b]).id
        &&& forall|k: int| 0 <= k < self.detached.len() ==> (#[trigger] self.detached[k]).wf()
    }

    /// Why a source on `mount` is not admitted, if it is not.
    pub open spec fn admission(self, mount: Seq<char>, relay: bool) -> Option<AdmissionError> {
        if mount_index(self.sources, mount) < self.sources.len() {
            Some(AdmissionError::MountInUse)
        } else if !relay && self.source_count >= self.properties.limits.sources {
            Some(AdmissionError::SourceLimit)
        } else if relay && self.relay_count >= self.properties.master_server.relay_limit {
            Some(AdmissionError::RelayLimit)
        } else if self.sources.len() >= self.properties.limits.total_sources {
            Some(AdmissionError::TotalSourceLimit)
        } else {
            None
        }
    }

    /// The server with one more source.
    pub open spec fn mounted(self, s: SourceView) -> ServerView {
        ServerView {
            sources: self.sources.push(s),
            source_count: if s.relay {
                self.source_count
            } else {
                (self.source_count + 1) as usize
            },
            relay_count: if s.relay {
                (self.relay_count + 1) as usize
            } else {
                self.relay_count
            },
            ..self
        }
    }
}

/// A listener attached to a source names that source.
pub proof fn lemma_listener_names_source(s: ServerView, i: int, j: int)
    requires
        s.wf(),
        0 <= i < s.sources.len(),
        0 <= j < s.sources[i].clients.len(),
    ensures
        s.sources[i].clients[j].source == s.sources[i].mountpoint,
{
    assert(s.sources[i].wf());
}

/// The burst buffer of a source holds no more than the burst size of its mountpoint.
pub proof fn lemma_burst_bounded(s: ServerView, i: int)
    requires
        s.wf(),
        0 <= i < s.sources.len(),
    ensures
        s.sources[i].burst_buffer.len() <= s.properties.limits.burst_size_of(
            s.sources[i].mountpoint,
        ),
{
}

/// The two counters add up to the number of sources.
pub proof fn lemma_counters_add_up(s: ServerView)
    requires
        s.wf(),
    ensures
        s.source_count + s.relay_count == s.sources.len(),
{
}

/// Every listener attached to a source has an entry with its identifier.
pub proof fn lemma_attached_has_entry(s: ServerView, i: int, j: int) -> (k: int)
    requires
        s.wf(),
        0 <= i < s.sources.len(),
        0 <= j < s.sources[i].clients.len(),
    ensures
        0 <= k < s.clients.len(),
        s.clients[k].id == s.sources[i].clients[j].properties.id,
{
    let id = s.sources[i].clients[j].properties.id;
    source::lemma_count_at(s.sources[i].clients, j);
    lemma_sum_at(s.sources, i, |x: SourceView| count_id(x.clients, id));
    assert(s.named(id) >= 1);
    let k = entry_index(s.clients, id);
    lemma_first_index(s.clients, |p: client::PropertiesView| p.id == id);
    k
}

/// The metadata block of a source is the encoding of its metadata.
pub proof fn lemma_block_encodes_metadata(s: ServerView, i: int)
    requires
        s.wf(),
        0 <= i < s.sources.len(),
    ensures
        s.sources[i].metadata_vec == crate::icy::metadata_block(s.sources[i].metadata),
{
    assert(s.sources[i].wf());
}

impl Server {
    /// A server with this configuration, without sources or listeners.
    pub fn new(properties: Properties) -> (r: Server)
        ensures
            r@ == (ServerView {
                sources: Seq::empty(),
                clients: Seq::empty(),
                detached: Seq::empty(),
                source_count: 0,
                relay_count: 0,
                properties,
                stats: Stats {
                    start_time: 0,
                    peak_listeners: 0,
                    session_bytes_sent: 0,
                    session_bytes_read: 0,
                },
            }),
            r@.wf(),
    {
        let r = Server {
            sources: Vec::new(),
            clients: Vec::new(),
            detached: Vec::new(),
            source_count: 0,
            relay_count: 0,
            properties,
            stats: Stats::new(),
        };
        proof {
            assert(r@.sources =~= Seq::<SourceView>::empty());
            assert(r@.clients =~= Seq::<client::PropertiesView>::empty());
            assert(r@.detached =~= Seq::<ClientView>::empty());
        }
        r
    }

    /// Notes the time at which the server started, in seconds since the epoch.
    pub fn started(&mut self, start_time: u64)
        requires
            old(self)@.wf(),
        ensures
            final(self)@ == (ServerView {
                stats: Stats { start_time, ..old(self)@.stats },
                ..old(self)@
            }),
            final(self)@.wf(),
    {
        self.stats.start_time = start_time;
        proof {
            let s = old(self)@;
            let t = self@;
            assert forall|id: u128| #[trigger] t.named(id) == s.named(id) by {}
            assert forall|id: u128| #[trigger] t.named(id) <= 1 by {
                assert(s.named(id) <= 1);
            }
            assert forall|id: u128| #[trigger] t.named(id) >= 1 implies has_entry(t.clients, id) by {
                assert(s.named(id) >= 1);
            }
        }
    }

    /// The index of the source on `mount`, or the number of sources where
    /// there is none.
    pub fn source_index(&self, mount: &str) -> (r: usize)
        ensures
            r == mount_index(self@.sources, mount@),
            r <= self.sources.len(),
    {
        let ghost p = |s: SourceView| s.mountpoint == mount@;
        let mut i: usize = 0;
        while i < self.sources.len()
            invariant
                i <= self.sources.len(),
                p == (|s: SourceView| s.mountpoint == mount@),
                forall|k: int| 0 <= k < i ==> !p(#[trigger] self@.sources[k]),
            decreases self.sources.len() - i,
        {
            if str_eq(self.sources[i].mountpoint.as_str(), mount) {
                proof {
                    lemma_first_index_is(self@.sources, p, i as int);
                }
                return i;
            }
            i += 1;
        }
        proof {
            lemma_first_index_is(self@.sources, p, i as int);
        }
        i
    }

    /// The index of the entry of listener `id`, or the number of entries
    /// where there is none.
    pub fn client_index(&self, id: u128) -> (r: usize)
        ensures
            r == entry_index(self@.clients, id),
            r <= self.clients.len(),
    {
        let ghost p = |e: client::PropertiesView| e.id == id;
        let mut i: usize = 0;
        while i < self.clients.len()
            invariant
                i <= self.clients.len(),
                p == (|e: client::PropertiesView| e.id == id),
                forall|k: int| 0 <= k < i ==> !p(#[trigger] self@.clients[k]),
            decreases self.clients.len() - i,
        {
            if self.clients[i].id == id {
                proof {
                    lemma_first_index_is(self@.clients, p, i as int);
                }
                return i;
            }
            i += 1;
        }
        proof {
            lemma_first_index_is(self@.clients, p, i as int);
        }
        i
    }

    /// Why a source on `mount` is not admitted, if it is not.
    pub fn check_admission(&self, mount: &str, relay: bool) -> (r: Option<AdmissionError>)
        ensures
            r == self@.admission(mount@, relay),
    {
        if self.source_index(mount) < self.sources.len() {
            Some(AdmissionError::MountInUse)
        } else if !relay && self.source_count >= self.properties.limits.sources {
            Some(AdmissionError::SourceLimit)
        } else if relay && self.relay_count >= self.properties.master_server.relay_limit {
            Some(AdmissionError::RelayLimit)
        } else if self.sources.len() >= self.properties.limits.total_sources {
            Some(AdmissionError::TotalSourceLimit)
        } else {
            None
        }
    }

    /// Mounts a new source, unless its mountpoint is taken or a limit on
    /// the number of sources is reached.
    pub fn mount(
        &mut self,
        mountpoint: String,
        properties: crate::icy::Properties,
        start_time: u64,
        relay: bool,
    ) -> (r: Result<(), AdmissionError>)
        requires
            old(self)@.wf(),
        ensures
            final(self)@.wf(),
            match r {
                Ok(()) => old(self)@.admission(mountpoint@, relay) is None && final(self)@ == old(
                    self,
                )@.mounted(fresh_source(mountpoint@, properties@, start_time, relay)),
                Err(e) => old(self)@.admission(mountpoint@, relay) == Some(e) && final(self)@
                    == old(self)@,
            },
    {
        match self.check_admission(mountpoint.as_str(), relay) {
            Some(e) => Err(e),
            None => {
                let source = Source::new(mountpoint, properties, start_time, relay);
                let ghost fresh = source@;
                let ghost before = self@;
                self.sources.push(source);
                if relay {
                    self.relay_count = self.relay_count + 1;
                } else {
                    self.source_count = self.source_count + 1;
                }
                proof {
                    assert(self@.sources =~= before.sources.push(fresh));
                    lemma_mounted_wf(before, fresh);
                }
                Ok(())
            },
        }
    }
}

/// Mounting an empty source on a free mountpoint keeps the server sound.
pub proof fn lemma_mounted_wf(s: ServerView, fresh: SourceView)
    requires
        s.wf(),
        fresh.wf(),
        fresh.clients.len() == 0,
        fresh.burst_buffer.len() == 0,
        mount_index(s.sources, fresh.mountpoint) >= s.sources.len(),
        s.sources.len() < usize::MAX,
    ensures
        s.mounted(fresh).wf(),
{
    let t = s.mounted(fresh);
    lemma_first_index(s.sources, |x: SourceView| x.mountpoint == fresh.mountpoint);
    lemma_sum_push(
        s.sources,
        fresh,
        |x: SourceView|
            if x.relay {
                1nat
            } else {
                0nat
            },
    );
    assert forall|id: u128| #[trigger] t.named(id) == s.named(id) by {
        lemma_sum_push(s.sources, fresh, |x: SourceView| count_id(x.clients, id));
    }
    assert forall|id: u128| #[trigger] t.named(id) >= 1 implies has_entry(t.clients, id) by {
        assert(s.named(id) >= 1);
    }
    assert forall|id: u128| #[trigger] t.named(id) <= 1 by {
        assert(s.named(id) <= 1);
    }
}

} // verus!
