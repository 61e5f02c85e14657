//! Requests with the method `GET`: a listener that asks for a stream, or
//! an order or a question for the control plane.

use vstd::prelude::*;
use vstd::utf8::*;
use crate::admin::{metadata_from, AdminError, MountInfo, ServerInfo, Totals};
use crate::client;

use crate::ingest::{canonical, canonical_mount, clean_path, cleaned_path};
use crate::listener::Refusal;
use crate::request::{
    basic_auth_of, extract_queries, get_basic_auth, get_header, get_queries_for, header_value,
    opt_pair, opt_text, path_of, query_value, query_views, target_queries, HeaderView, Query,
    QueryView, RequestHead,
};
use crate::server::{is_user, validate_user, Server, ServerView};
use crate::source::SourceView;
use crate::text::{bytes_eq, str_eq, text_of, utf8};

verus! {

/// What the control plane offers.
#[derive(Clone, Copy, Debug, PartialEq, Eq, Structural)]
pub enum Endpoint {
    Metadata,
    ListClients,
    Fallbacks,
    MoveClients,
    KillClient,
    KillSource,
    ListMounts,
    ServerInfo,
    MountInfo,
    Stats,
}

impl Endpoint {
    /// The path of the endpoint.
    pub open spec fn path(self) -> Seq<char> {
        match self {
            Endpoint::Metadata => "/admin/metadata"@,
            Endpoint::ListClients => "/admin/listclients"@,
            Endpoint::Fallbacks => "/admin/fallbacks"@,
            Endpoint::MoveClients => "/admin/moveclients"@,
            Endpoint::KillClient => "/admin/killclient"@,
            Endpoint::KillSource => "/admin/killsource"@,
            Endpoint::ListMounts => "/admin/listmounts"@,
            Endpoint::ServerInfo => "/api/serverinfo"@,
            Endpoint::MountInfo => "/api/mountinfo"@,
            Endpoint::Stats => "/api/stats"@,
        }
    }

    /// Whether the endpoint is open only to users: those under `/admin` are.
    pub open spec fn guarded(self) -> bool {
        !(self is ServerInfo || self is MountInfo || self is Stats)
    }

    /// Whether the endpoint is open only to users.
    pub fn is_guarded(&self) -> (r: bool)
        ensures
            r == self.guarded(),
    {
        match self {
            Endpoint::ServerInfo | Endpoint::MountInfo | Endpoint::Stats => false,
            _ => true,
        }
    }
}

/// The endpoint at `path`, if there is one.
pub open spec fn endpoint_at(path: Seq<char>) -> Option<Endpoint> {
    if path == Endpoint::Metadata.path() {
        Some(Endpoint::Metadata)
    } else if path == Endpoint::ListClients.path() {
        Some(Endpoint::ListClients)
    } else if path == Endpoint::Fallbacks.path() {
        Some(Endpoint::Fallbacks)
    } else if path == Endpoint::MoveClients.path() {
        Some(Endpoint::MoveClients)
    } else if path == Endpoint::KillClient.path() {
        Some(Endpoint::KillClient)
    } else if path == Endpoint::KillSource.path() {
        Some(Endpoint::KillSource)
    } else if path == Endpoint::ListMounts.path() {
        Some(Endpoint::ListMounts)
    } else if path == Endpoint::ServerInfo.path() {
        Some(Endpoint::ServerInfo)
    } else if path == Endpoint::MountInfo.path() {
        Some(Endpoint::MountInfo)
    } else if path == Endpoint::Stats.path() {
        Some(Endpoint::Stats)
    } else {
        None
    }
}

/// The endpoint at `path`, if there is one.
pub fn endpoint_of(path: &str) -> (r: Option<Endpoint>)
    ensures
        r == endpoint_at(path@),
{
    if str_eq(path, "/admin/metadata") {
        Some(Endpoint::Metadata)
    } else if str_eq(path, "/admin/listclients") {
        Some(Endpoint::ListClients)
    } else if str_eq(path, "/admin/fallbacks") {
        Some(Endpoint::Fallbacks)
    } else if str_eq(path, "/admin/moveclients") {
        Some(Endpoint::MoveClients)
    } else if str_eq(path, "/admin/killclient") {
        Some(Endpoint::KillClient)
    } else if str_eq(path, "/admin/killsource") {
        Some(Endpoint::KillSource)
    } else if str_eq(path, "/admin/listmounts") {
        Some(Endpoint::ListMounts)
    } else if str_eq(path, "/api/serverinfo") {
        Some(Endpoint::ServerInfo)
    } else if str_eq(path, "/api/mountinfo") {
        Some(Endpoint::MountInfo)
    } else if str_eq(path, "/api/stats") {
        Some(Endpoint::Stats)
    } else {
        None
    }
}

/// An order or a question for the control plane, with what its query says.
pub enum Command {
    UpdateMetadata { mount: String, song: Option<String>, url: Option<String> },
    ListClients { mount: String },
    SetFallback { mount: String, fallback: Option<String> },
    MoveClients { mount: String, destination: String },
    KillClient { mount: String, id: String },
    KillSource { mount: String },
    ListMounts,
    ServerInfo,
    MountInfo { mount: String },
    Stats,
}

pub enum CommandView {
    UpdateMetadata { mount: Seq<char>, song: Option<Seq<char>>, url: Option<Seq<char>> },
    ListClients { mount: Seq<char> },
    SetFallback { mount: Seq<char>, fallback: Option<Seq<char>> },
    MoveClients { mount: Seq<char>, destination: Seq<char> },
    KillClient { mount: Seq<char>, id: Seq<char> },
    KillSource { mount: Seq<char> },
    ListMounts,
    ServerInfo,
    MountInfo { mount: Seq<char> },
    Stats,
}

impl View for Command {
    type V = CommandView;

    open spec fn view(&self) -> CommandView {
        match self {
            Command::UpdateMetadata { mount, song, url } => CommandView::UpdateMetadata {
                mount: mount@,
                song: opt_text(*song),
                url: opt_text(*url),
            },
            Command::ListClients { mount } => CommandView::ListClients { mount: mount@ },
            Command::SetFallback { mount, fallback } => CommandView::SetFallback {
                mount: mount@,
                fallback: opt_text(*fallback),
            },
            Command::MoveClients { mount, destination } => CommandView::MoveClients {
                mount: mount@,
                destination: destination@,
            },
            Command::KillClient { mount, id } => CommandView::KillClient { mount: mount@, id: id@ },
            Command::KillSource { mount } => CommandView::KillSource { mount: mount@ },
            Command::ListMounts => CommandView::ListMounts,
            Command::ServerInfo => CommandView::ServerInfo,
            Command::MountInfo { mount } => CommandView::MountInfo { mount: mount@ },
            Command::Stats => CommandView::Stats,
        }
    }
}

/// The view of an optional command.
pub open spec fn opt_command(c: Option<Command>) -> Option<CommandView> {
    match c {
        Some(c) => Some(c@),
        None => None,
    }
}

/// The command that a query makes at an endpoint, if it makes one. The
/// endpoints that ask about the server as a whole need no query; each of
/// the others needs a `mount`, and some need more.
pub open spec fn command_from(endpoint: Endpoint, queries: Option<Seq<QueryView>>) -> Option<
    CommandView,
> {
    match endpoint {
        Endpoint::ListMounts => Some(CommandView::ListMounts),
        Endpoint::ServerInfo => Some(CommandView::ServerInfo),
        Endpoint::Stats => Some(CommandView::Stats),
        _ => match queries {
            None => None,
            Some(q) => match query_value(q, "mount"@) {
                None => None,
                Some(mount) => match endpoint {
                    Endpoint::Metadata => if query_value(q, "mode"@) == Some("updinfo"@) {
                        Some(
                            CommandView::UpdateMetadata {
                                mount,
                                song: query_value(q, "song"@),
                                url: query_value(q, "url"@),
                            },
                        )
                    } else {
                        None
                    },
                    Endpoint::ListClients => Some(CommandView::ListClients { mount }),
                    Endpoint::Fallbacks => Some(
                        CommandView::SetFallback { mount, fallback: query_value(q, "fallback"@) },
                    ),
                    Endpoint::MoveClients => match query_value(q, "destination"@) {
                        Some(destination) => Some(CommandView::MoveClients { mount, destination }),
                        None => None,
                    },
                    Endpoint::KillClient => match query_value(q, "id"@) {
                        Some(id) => Some(CommandView::KillClient { mount, id }),
                        None => None,
                    },
                    Endpoint::KillSource => Some(CommandView::KillSource { mount }),
                    _ => Some(CommandView::MountInfo { mount }),
                },
            },
        },
    }
}

/// The view of optional queries.
pub open spec fn opt_queries(q: Option<Vec<Query>>) -> Option<Seq<QueryView>> {
    match q {
        Some(q) => Some(query_views(q@)),
        None => None,
    }
}

/// The value of the last query named `key`.
fn value_of(queries: &Vec<Query>, key: &str) -> (r: Option<String>)
    ensures
        opt_text(r) == query_value(query_views(queries@), key@),
{
    let mut keys: Vec<&str> = Vec::new();
    keys.push(key);
    let mut values = get_queries_for(keys, queries.as_slice());
    assert(opt_text(values@[0]) == query_value(query_views(queries@), key@));
    match values.pop() {
        Some(v) => v,
        None => None,
    }
}

/// The command that a query makes at an endpoint, if it makes one.
pub fn command_of(endpoint: Endpoint, queries: &Option<Vec<Query>>) -> (r: Option<Command>)
    ensures
        opt_command(r) == command_from(endpoint, opt_queries(*queries)),
{
    match endpoint {
        Endpoint::ListMounts => {
            return Some(Command::ListMounts);
        },
        Endpoint::ServerInfo => {
            return Some(Command::ServerInfo);
        },
        Endpoint::Stats => {
            return Some(Command::Stats);
        },
        _ => {},
    }
    let q = match queries {
        None => {
            return None;
        },
        Some(q) => q,
    };
    let mount = match value_of(q, "mount") {
        None => {
            return None;
        },
        Some(mount) => mount,
    };
    match endpoint {
        Endpoint::Metadata => {
            match value_of(q, "mode") {
                Some(mode) => if str_eq(mode.as_str(), "updinfo") {
                    Some(
                        Command::UpdateMetadata {
                            mount,
                            song: value_of(q, "song"),
                            url: value_of(q, "url"),
                        },
                    )
                } else {
                    None
                },
                None => None,
            }
        },
        Endpoint::ListClients => Some(Command::ListClients { mount }),
        Endpoint::Fallbacks => Some(
            Command::SetFallback { mount, fallback: value_of(q, "fallback") },
        ),
        Endpoint::MoveClients => match value_of(q, "destination") {
            Some(destination) => Some(Command::MoveClients { mount, destination }),
            None => None,
        },
        Endpoint::KillClient => match value_of(q, "id") {
            Some(id) => Some(Command::KillClient { mount, id }),
            None => None,
        },
        Endpoint::KillSource => Some(Command::KillSource { mount }),
        _ => Some(Command::MountInfo { mount }),
    }
}

/// The identifier that a text spells out, if it spells one out: 32
/// hexadecimal digits, plain, in five groups with hyphens, or as a URN.
pub uninterp spec fn uuid_of(text: Seq<char>) -> Option<u128>;

/// `Uuid::parse_str` of uuid, with the identifier taken as a number: the
/// identifier that `text` spells out, or nothing where the crate refuses it.
#[verifier::external_body]
pub(crate) fn parse_uuid(text: &str) -> (r: Option<u128>)
    ensures
        r == uuid_of(text@),
{
    match uuid::Uuid::parse_str(text) {
        Ok(id) => Some(id.as_u128()),
        Err(_) => None,
    }
}

/// What is sent back for a request to the control plane.
pub enum Answer {
    /// A status with a short text; `json` where the text is announced as JSON.
    Text { status: u16, text: &'static str, json: bool },
    /// The page that says that nothing is at the path. Status 404.
    NotFound,
    /// The listeners of a source. Status 200.
    Clients(Vec<(client::Properties, client::Stats)>),
    /// The sources. Status 200.
    Mounts(Vec<MountInfo>),
    /// The server. Status 200.
    Server(ServerInfo),
    /// One source. Status 200.
    Mount(MountInfo),
    /// The totals of the session. Status 200.
    Totals(Totals),
}

impl Answer {
    /// The status of the answer.
    pub open spec fn status_of(&self) -> u16 {
        match self {
            Answer::Text { status, .. } => *status,
            Answer::NotFound => 404,
            _ => 200,
        }
    }

    /// The status of the answer.
    pub fn status(&self) -> (r: u16)
        ensures
            r == self.status_of(),
    {
        match self {
            Answer::Text { status, .. } => *status,
            Answer::NotFound => 404,
            _ => 200,
        }
    }
}

/// The server after a command was carried out.
pub open spec fn command_effect(s: ServerView, c: CommandView, id: Option<u128>) -> ServerView {
    match c {
        CommandView::UpdateMetadata { mount, song, url } => match s.source_on(mount) {
            Some(source) => s.with_source_as(
                mount,
                source.with_metadata(metadata_from(song, url)),
            ),
            None => s,
        },
        CommandView::SetFallback { mount, fallback } => match s.source_on(mount) {
            Some(source) => s.with_source_as(mount, SourceView { fallback, ..source }),
            None => s,
        },
        CommandView::MoveClients { mount, destination } => s.after_move(mount, destination),
        CommandView::KillClient { mount, .. } => match (s.kill_outcome(mount, id), id) {
            (Ok(()), Some(id)) => s.after_kill(mount, id),
            _ => s,
        },
        CommandView::KillSource { mount } => match s.source_on(mount) {
            Some(source) => s.with_source_as(mount, SourceView { disconnect_flag: true, ..source }),
            None => s,
        },
        _ => s,
    }
}

/// The status that answers a command: 403 where it names a mountpoint
/// without a source or a listener that the source does not have, else 200.
pub open spec fn command_status(s: ServerView, c: CommandView, id: Option<u128>) -> u16 {
    match c {
        CommandView::UpdateMetadata { mount, .. } | CommandView::ListClients { mount }
        | CommandView::SetFallback { mount, .. } | CommandView::KillSource { mount }
        | CommandView::MountInfo { mount } => if s.source_on(mount) is Some {
            200
        } else {
            403
        },
        CommandView::MoveClients { mount, destination } => if s.source_on(mount) is Some
            && s.source_on(destination) is Some {
            200
        } else {
            403
        },
        CommandView::KillClient { mount, .. } => if s.kill_outcome(mount, id) is Ok {
            200
        } else {
            403
        },
        _ => 200,
    }
}

/// Whether `answer` tells what the command asked for, where it asked for something.
pub open spec fn answers(answer: Answer, s: ServerView, c: CommandView, now: u64) -> bool {
    match (c, answer) {
        (CommandView::ListClients { mount }, Answer::Clients(list)) => {
            &&& s.source_on(mount) matches Some(source)
            &&& list@.len() == source.clients.len()
            &&& forall|j: int|
                0 <= j < list@.len() ==> (#[trigger] list@[j]).0@ == source.clients[j].properties
                    && list@[j].1 == source.clients[j].stats
        },
        (CommandView::ListMounts, Answer::Mounts(list)) => {
            &&& list@.len() == s.sources.len()
            &&& forall|i: int| 0 <= i < list@.len() ==> (#[trigger] list@[i]).tells(s.sources[i])
        },
        (CommandView::ServerInfo, Answer::Server(info)) => {
            &&& info.mounts@.len() == s.sources.len()
            &&& forall|i: int|
                0 <= i < info.mounts@.len() ==> (#[trigger] info.mounts@[i])@
                    == s.sources[i].mountpoint
            &&& info.server_id@ == s.properties.server_id@
            &&& info.admin@ == s.properties.admin@
            &&& info.host@ == s.properties.host@
            &&& info.location@ == s.properties.location@
            &&& info.description@ == s.properties.description@
            &&& info.start_time == s.stats.start_time
            &&& info.peak_listeners == s.stats.peak_listeners
            &&& info.current_listeners == s.clients.len()
        },
        (CommandView::MountInfo { mount }, Answer::Mount(info)) => {
            &&& s.source_on(mount) matches Some(source)
            &&& info.tells(source)
        },
        (CommandView::Stats, Answer::Totals(totals)) => totals == s.totals(now),
        (CommandView::ListClients { .. }, _) | (CommandView::ListMounts, _) | (
            CommandView::ServerInfo,
            _,
        ) | (CommandView::MountInfo { .. }, _) | (CommandView::Stats, _) => answer is Text
            && answer.status_of() != 200,
        (_, _) => answer is Text,
    }
}

/// The short text that answers a command with the status `status`, and
/// whether it is announced as JSON: `Success`, as JSON but for a change of
/// metadata; or what was wrong, the listener where the source is there
/// and the listener is not, else the mountpoint.
pub open spec fn command_text(s: ServerView, c: CommandView, status: u16) -> (Seq<char>, bool) {
    if status == 200 {
        ("Success"@, !(c is UpdateMetadata))
    } else {
        match c {
            CommandView::KillClient { mount, .. } => if s.source_on(mount) is Some {
                ("Invalid id"@, false)
            } else {
                ("Invalid mount"@, false)
            },
            _ => ("Invalid mount"@, false),
        }
    }
}

/// Whether an answer that is a short text has the text that goes with the command.
pub open spec fn worded(answer: Answer, s: ServerView, c: CommandView) -> bool {
    match answer {
        Answer::Text { status, text, json } => (text@, json) == command_text(s, c, status),
        _ => true,
    }
}

fn refused(e: AdminError) -> (r: Answer)
    ensures
        r matches Answer::Text { status, text, json } && status == 403 && !json && text@ == (match e {
            AdminError::UnknownMount => "Invalid mount"@,
            AdminError::UnknownId => "Invalid id"@,
        }),
{
    match e {
        AdminError::UnknownMount => Answer::Text { status: 403, text: "Invalid mount", json: false },
        AdminError::UnknownId => Answer::Text { status: 403, text: "Invalid id", json: false },
    }
}

fn done(r: Result<(), AdminError>, json: bool) -> (a: Answer)
    ensures
        a matches Answer::Text { status, text, json: j } && (match r {
            Ok(()) => status == 200 && text@ == "Success"@ && j == json,
            Err(e) => status == 403 && !j && text@ == (match e {
                AdminError::UnknownMount => "Invalid mount"@,
                AdminError::UnknownId => "Invalid id"@,
            }),
        }),
{
    match r {
        Ok(()) => Answer::Text { status: 200, text: "Success", json },
        Err(e) => refused(e),
    }
}

/// Carries out a command in which `id` is the identifier that the text of
/// its `id` spells out, if it has one and it spells one out.
pub fn execute_with(server: &mut Server, command: Command, id: Option<u128>, now: u64) -> (r:
    Answer)
    requires
        old(server)@.wf(),
    ensures
        final(server)@.wf(),
        final(server)@ == command_effect(old(server)@, command@, id),
        r.status_of() == command_status(old(server)@, command@, id),
        answers(r, old(server)@, command@, now),
        worded(r, old(server)@, command@),
{
    match command {
        Command::UpdateMetadata { mount, song, url } => done(
            server.update_metadata(mount.as_str(), song, url),
            false,
        ),
        Command::ListClients { mount } => match server.list_clients(mount.as_str()) {
            Some(list) => Answer::Clients(list),
            None => refused(AdminError::UnknownMount),
        },
        Command::SetFallback { mount, fallback } => done(
            server.set_fallback(mount.as_str(), fallback),
            true,
        ),
        Command::MoveClients { mount, destination } => done(
            server.move_clients(mount.as_str(), destination.as_str()),
            true,
        ),
        Command::KillClient { mount, id: _ } => done(server.kill_listener(mount.as_str(), id), true),
        Command::KillSource { mount } => done(server.kill_source(mount.as_str()), true),
        Command::ListMounts => Answer::Mounts(server.list_mounts()),
        Command::ServerInfo => Answer::Server(server.server_info()),
        Command::MountInfo { mount } => match server.mount_info(mount.as_str()) {
            Some(info) => Answer::Mount(info),
            None => refused(AdminError::UnknownMount),
        },
        Command::Stats => Answer::Totals(server.stats(now)),
    }
}

/// The identifier that a command names, if it names one.
pub open spec fn named_id(c: CommandView) -> Option<u128> {
    match c {
        CommandView::KillClient { id, .. } => uuid_of(id),
        _ => None,
    }
}

/// Carries out a command.
pub fn execute(server: &mut Server, command: Command, now: u64) -> (r: Answer)
    requires
        old(server)@.wf(),
    ensures
        final(server)@.wf(),
        final(server)@ == command_effect(old(server)@, command@, named_id(command@)),
        r.status_of() == command_status(old(server)@, command@, named_id(command@)),
        answers(r, old(server)@, command@, now),
        worded(r, old(server)@, command@),
{
    let id = match &command {
        Command::KillClient { id, .. } => parse_uuid(id.as_str()),
        _ => None,
    };
    execute_with(server, command, id, now)
}

/// What the control plane makes of a request: the status of its answer.
/// Nothing is at an unknown path (404); a guarded endpoint wants the
/// credentials of a user (401); the query must make a command (400); and
/// the command decides the rest.
pub open spec fn control_status(
    s: ServerView,
    path: Seq<char>,
    queries: Option<Seq<QueryView>>,
    credentials: Option<(Seq<char>, Seq<char>)>,
) -> u16 {
    match endpoint_at(path) {
        None => 404,
        Some(endpoint) => if endpoint.guarded() && !(credentials matches Some(c) && is_user(
            s.properties.users@,
            c.0,
            c.1,
        )) {
            401
        } else {
            match command_from(endpoint, queries) {
                None => 400,
                Some(c) => command_status(s, c, named_id(c)),
            }
        },
    }
}

/// The server after a request to the control plane.
pub open spec fn control_effect(
    s: ServerView,
    path: Seq<char>,
    queries: Option<Seq<QueryView>>,
    credentials: Option<(Seq<char>, Seq<char>)>,
) -> ServerView {
    match endpoint_at(path) {
        None => s,
        Some(endpoint) => if endpoint.guarded() && !(credentials matches Some(c) && is_user(
            s.properties.users@,
            c.0,
            c.1,
        )) {
            s
        } else {
            match command_from(endpoint, queries) {
                None => s,
                Some(c) => command_effect(s, c, named_id(c)),
            }
        },
    }
}

/// Whether `answer` is the answer to a request to the control plane: the
/// page for an unknown path, a short text that says what is missing, or
/// what the command asked for.
pub open spec fn control_answer(
    answer: Answer,
    s: ServerView,
    path: Seq<char>,
    queries: Option<Seq<QueryView>>,
    credentials: Option<(Seq<char>, Seq<char>)>,
    now: u64,
) -> bool {
    match endpoint_at(path) {
        None => answer is NotFound,
        Some(endpoint) => if endpoint.guarded() && credentials is None {
            answer matches Answer::Text { status, text, json } && status == 401 && !json && text@
                == "You need to authenticate"@
        } else if endpoint.guarded() && !(credentials matches Some(c) && is_user(
            s.properties.users@,
            c.0,
            c.1,
        )) {
            answer matches Answer::Text { status, text, json } && status == 401 && !json && text@
                == "Invalid credentials"@
        } else {
            match command_from(endpoint, queries) {
                None => answer matches Answer::Text { status, text, json } && status == 400 && !json
                    && text@ == "Invalid query"@,
                Some(c) => answers(answer, s, c, now) && worded(answer, s, c),
            }
        },
    }
}

/// Answers a request to the control plane at `path`, with these queries
/// and these credentials.
pub fn control(
    server: &mut Server,
    path: &str,
    queries: &Option<Vec<Query>>,
    credentials: Option<(String, String)>,
    now: u64,
) -> (r: Answer)
    requires
        old(server)@.wf(),
    ensures
        final(server)@.wf(),
        r.status_of() == control_status(
            old(server)@,
            path@,
            opt_queries(*queries),
            opt_pair(credentials),
        ),
        final(server)@ == control_effect(
            old(server)@,
            path@,
            opt_queries(*queries),
            opt_pair(credentials),
        ),
        control_answer(r, old(server)@, path@, opt_queries(*queries), opt_pair(credentials), now),
{
    let endpoint = match endpoint_of(path) {
        None => {
            return Answer::NotFound;
        },
        Some(endpoint) => endpoint,
    };
    if endpoint.is_guarded() {
        match credentials {
            None => {
                return Answer::Text { status: 401, text: "You need to authenticate", json: false };
            },
            Some((name, password)) => {
                if !validate_user(&server.properties, name, password) {
                    return Answer::Text { status: 401, text: "Invalid credentials", json: false };
                }
            },
        }
    }
    match command_of(endpoint, queries) {
        None => Answer::Text { status: 400, text: "Invalid query", json: false },
        Some(command) => execute(server, command, now),
    }
}

/// What a request with the method `GET` comes to.
pub enum GetPlan {
    /// A listener asks for the stream on `mount` and may have it.
    Listen { mount: String, meta_enabled: bool, uagent: Option<String> },
    /// A listener asks for a stream and is refused. Status 403.
    Refuse(Refusal),
    /// The request was for the control plane, and this is its answer.
    Control(Answer),
}

/// Whether a listener asks for metadata in the stream: its header
/// `Icy-MetaData` says `1`.
pub open spec fn wants_metadata(headers: Seq<HeaderView>) -> bool {
    header_value(headers, "Icy-MetaData"@) == Some(utf8("1"@))
}

/// The user agent that a request names, where it names one in UTF-8.
pub open spec fn user_agent(headers: Seq<HeaderView>) -> Option<Seq<char>> {
    match header_value(headers, "User-Agent"@) {
        Some(v) => if valid_utf8(v) {
            Some(decode_utf8(v))
        } else {
            None
        },
        None => None,
    }
}

/// Decides on a request with the method `GET`. Where a source is mounted
/// on its path, the request is that of a listener, who is admitted or
/// refused; else it goes to the control plane.
pub fn handle_get(server: &mut Server, head: &RequestHead, now: u64) -> (r: GetPlan)
    requires
        old(server)@.wf(),
    ensures
        final(server)@.wf(),
        ({
            let s = old(server)@;
            let path = decode_utf8(path_of(utf8(head@.path)));
            let mount = decode_utf8(canonical(path));
            match r {
                GetPlan::Listen { mount: m, meta_enabled, uagent } => {
                    &&& s.listener_admission(mount) is None
                    &&& m@ == mount
                    &&& meta_enabled == wants_metadata(head@.headers)
                    &&& opt_text(uagent) == user_agent(head@.headers)
                    &&& final(server)@ == s
                },
                GetPlan::Refuse(e) => {
                    &&& s.listener_admission(mount) == Some(e)
                    &&& e != Refusal::UnknownMount
                    &&& final(server)@ == s
                },
                GetPlan::Control(answer) => {
                    &&& s.listener_admission(mount) == Some(Refusal::UnknownMount)
                    &&& answer.status_of() == control_status(
                        s,
                        cleaned_path(path),
                        target_queries(utf8(head@.path)),
                        basic_auth_of(head@.headers),
                    )
                    &&& final(server)@ == control_effect(
                        s,
                        cleaned_path(path),
                        target_queries(utf8(head@.path)),
                        basic_auth_of(head@.headers),
                    )
                    &&& control_answer(
                        answer,
                        s,
                        cleaned_path(path),
                        target_queries(utf8(head@.path)),
                        basic_auth_of(head@.headers),
                        now,
                    )
                },
            }
        }),
{
    let (base, queries) = extract_queries(head.path.as_str());
    let mount = canonical_mount(base.as_str());
    proof {
        encode_utf8_decode_utf8(base@);
        encode_utf8_decode_utf8(mount@);
    }
    match server.check_listener(mount.as_str()) {
        None => {
            let meta_enabled = match get_header("Icy-MetaData", head.headers.as_slice()) {
                Some(v) => bytes_eq(v, "1".as_bytes()),
                None => false,
            };
            let uagent = match get_header("User-Agent", head.headers.as_slice()) {
                Some(v) => match text_of(v) {
                    Some(agent) => {
                        proof {
                            encode_utf8_decode_utf8(agent@);
                        }
                        Some(agent)
                    },
                    None => None,
                },
                None => None,
            };
            GetPlan::Listen { mount, meta_enabled, uagent }
        },
        Some(Refusal::UnknownMount) => {
            let path = clean_path(base.as_str());
            let credentials = get_basic_auth(head.headers.as_slice());
            GetPlan::Control(control(server, path.as_str(), &queries, credentials, now))
        },
        Some(e) => GetPlan::Refuse(e),
    }
}

/// What is done with a request, by its method.
#[derive(Clone, Copy, Debug, PartialEq, Eq, Structural)]
pub enum Route {
    /// `SOURCE` or `PUT`: a source asks to be mounted; `put` for `PUT`.
    Ingest { put: bool },
    /// `GET`: a listener or the control plane.
    Get,
    /// Any other method: status 405.
    NotAllowed,
}

/// What is done with a request of the method `method`.
pub open spec fn route_of(method: Seq<char>) -> Route {
    if method == "SOURCE"@ {
        Route::Ingest { put: false }
    } else if method == "PUT"@ {
        Route::Ingest { put: true }
    } else if method == "GET"@ {
        Route::Get
    } else {
        Route::NotAllowed
    }
}

/// What is done with a request of the method `method`.
pub fn route(method: &str) -> (r: Route)
    ensures
        r == route_of(method@),
{
    if str_eq(method, "SOURCE") {
        Route::Ingest { put: false }
    } else if str_eq(method, "PUT") {
        Route::Ingest { put: true }
    } else if str_eq(method, "GET") {
        Route::Get
    } else {
        Route::NotAllowed
    }
}

} // verus!
