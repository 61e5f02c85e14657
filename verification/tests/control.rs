use rusty_zenith::admin::{AdminError, Totals};
use rusty_zenith::client;
use rusty_zenith::control::{
    command_of, control, endpoint_of, execute, handle_get, route, Answer, Command, Endpoint,
    GetPlan, Route,
};
use rusty_zenith::icy;
use rusty_zenith::icy::{get_metadata_vec, write_to_client, Metadata};
use rusty_zenith::listener::{Delivery, Refusal};
use rusty_zenith::request::{extract_queries, read_request, RequestHead};
use rusty_zenith::server::{Properties, Server};
use rusty_zenith::source;

const ADMIN: &str = "Authorization: Basic YWRtaW46aGFja21l\r\n";
const ID: u128 = 0x936DA01F9ABD4D9D80C702AF85C822A8;
const ID_TEXT: &str = "936DA01F-9ABD-4D9D-80C7-02AF85C822A8";

fn head(target: &str, headers: &str) -> RequestHead {
    let message = format!("GET {} HTTP/1.1\r\n{}\r\n", target, headers);
    read_request(message.as_bytes(), 8192).unwrap().unwrap()
}

fn server() -> Server {
    let mut properties = Properties::new();
    properties.limits.source_limits = Vec::new();
    let mut server = Server::new(properties);
    assert_eq!(
        server.mount("/r".to_string(), icy::Properties::new("audio/mpeg".to_string()), 3, false),
        Ok(())
    );
    server
}

fn listener(id: u128, metadata: bool) -> client::Properties {
    client::Properties { id, uagent: Some("player".to_string()), metadata }
}

fn status_and_text(plan: GetPlan) -> (u16, &'static str, bool) {
    match plan {
        GetPlan::Control(Answer::Text { status, text, json }) => (status, text, json),
        GetPlan::Control(answer) => (answer.status(), "", false),
        _ => (0, "", false),
    }
}

#[test]
fn methods_are_routed() {
    assert_eq!(route("SOURCE"), Route::Ingest { put: false });
    assert_eq!(route("PUT"), Route::Ingest { put: true });
    assert_eq!(route("GET"), Route::Get);
    assert_eq!(route("POST"), Route::NotAllowed);
    assert_eq!(route("get"), Route::NotAllowed);
    assert_eq!(route(""), Route::NotAllowed);
}

#[test]
fn endpoints_have_their_paths() {
    assert_eq!(endpoint_of("/admin/metadata"), Some(Endpoint::Metadata));
    assert_eq!(endpoint_of("/admin/listclients"), Some(Endpoint::ListClients));
    assert_eq!(endpoint_of("/admin/fallbacks"), Some(Endpoint::Fallbacks));
    assert_eq!(endpoint_of("/admin/moveclients"), Some(Endpoint::MoveClients));
    assert_eq!(endpoint_of("/admin/killclient"), Some(Endpoint::KillClient));
    assert_eq!(endpoint_of("/admin/killsource"), Some(Endpoint::KillSource));
    assert_eq!(endpoint_of("/admin/listmounts"), Some(Endpoint::ListMounts));
    assert_eq!(endpoint_of("/api/serverinfo"), Some(Endpoint::ServerInfo));
    assert_eq!(endpoint_of("/api/mountinfo"), Some(Endpoint::MountInfo));
    assert_eq!(endpoint_of("/api/stats"), Some(Endpoint::Stats));
    assert_eq!(endpoint_of("/admin"), None);
    assert_eq!(endpoint_of("/admin/metadata/"), None);
    assert_eq!(endpoint_of("/api/Stats"), None);
    assert!(Endpoint::KillClient.is_guarded());
    assert!(Endpoint::ListMounts.is_guarded());
    assert!(!Endpoint::ServerInfo.is_guarded());
    assert!(!Endpoint::MountInfo.is_guarded());
    assert!(!Endpoint::Stats.is_guarded());
}

#[test]
fn admin_kill_makes_the_listener_leave() {
    let mut server = server();
    assert!(server.attach_listener("/r", listener(ID, false), 0).is_ok());
    server.feed("/r", b"abc".to_vec());
    let target = format!("/admin/killclient?mount=/r&id={}", ID_TEXT);
    let plan = handle_get(&mut server, &head(&target, ADMIN), 0);
    assert_eq!(status_and_text(plan), (200, "Success", true));
    // still attached, until it takes the word to leave from its queue
    assert_eq!(server.sources[0].clients.len(), 1);
    assert!(matches!(server.next_blob(ID), Delivery::Blob(b) if *b == b"abc".to_vec()));
    assert!(matches!(server.next_blob(ID), Delivery::Kicked));
    assert!(matches!(server.next_blob(ID), Delivery::Idle));
    server.detach_listener(ID);
    assert!(server.sources[0].clients.is_empty());
    assert!(server.clients.is_empty());
}

#[test]
fn admin_kill_of_an_unknown_listener_is_forbidden() {
    let mut server = server();
    assert!(server.attach_listener("/r", listener(ID, false), 0).is_ok());
    let other = "/admin/killclient?mount=/r&id=00000000-0000-0000-0000-000000000001";
    assert_eq!(
        status_and_text(handle_get(&mut server, &head(other, ADMIN), 0)),
        (403, "Invalid id", false)
    );
    let no_uuid = "/admin/killclient?mount=/r&id=12345";
    assert_eq!(
        status_and_text(handle_get(&mut server, &head(no_uuid, ADMIN), 0)),
        (403, "Invalid id", false)
    );
    let target = format!("/admin/killclient?mount=/x&id={}", ID_TEXT);
    assert_eq!(
        status_and_text(handle_get(&mut server, &head(&target, ADMIN), 0)),
        (403, "Invalid mount", false)
    );
    assert!(matches!(server.next_blob(ID), Delivery::Idle));
    assert_eq!(server.kill_listener("/r", None), Err(AdminError::UnknownId));
    assert_eq!(server.kill_listener("/r", Some(1)), Err(AdminError::UnknownId));
    assert_eq!(server.kill_listener("/x", Some(ID)), Err(AdminError::UnknownMount));
    assert_eq!(server.kill_listener("/r", Some(ID)), Ok(()));
    assert!(matches!(server.next_blob(ID), Delivery::Kicked));
}

#[test]
fn admin_kill_is_scoped_to_the_mountpoint() {
    let mut server = server();
    assert_eq!(
        server.mount("/s".to_string(), icy::Properties::new("a/b".to_string()), 0, false),
        Ok(())
    );
    assert!(server.attach_listener("/s", listener(ID, false), 0).is_ok());
    let target = format!("/admin/killclient?mount=/r&id={}", ID_TEXT);
    assert_eq!(
        status_and_text(handle_get(&mut server, &head(&target, ADMIN), 0)),
        (403, "Invalid id", false)
    );
    assert!(matches!(server.next_blob(ID), Delivery::Idle));
}

#[test]
fn admin_needs_credentials() {
    let mut server = server();
    assert!(server.attach_listener("/r", listener(ID, false), 0).is_ok());
    let target = format!("/admin/killclient?mount=/r&id={}", ID_TEXT);
    assert_eq!(
        status_and_text(handle_get(&mut server, &head(&target, ""), 0)),
        (401, "You need to authenticate", false)
    );
    assert_eq!(
        status_and_text(handle_get(
            &mut server,
            &head(&target, "Authorization: Basic dXM6czNjcmV0\r\n"),
            0
        )),
        (401, "Invalid credentials", false)
    );
    // credentials are asked for before the query is looked at
    assert_eq!(
        status_and_text(handle_get(&mut server, &head("/admin/killclient", ""), 0)),
        (401, "You need to authenticate", false)
    );
    assert_eq!(
        status_and_text(handle_get(&mut server, &head("/admin/listmounts", ""), 0)),
        (401, "You need to authenticate", false)
    );
    assert!(matches!(server.next_blob(ID), Delivery::Idle));
}

#[test]
fn query_must_make_a_command() {
    let mut server = server();
    for target in [
        "/admin/killclient",
        "/admin/killclient?mount=/r",
        "/admin/killclient?id=1",
        "/admin/metadata?mount=/r&song=a",
        "/admin/metadata?mode=other&mount=/r&song=a",
        "/admin/metadata?mode=updinfo&song=a",
        "/admin/listclients?",
        "/admin/fallbacks?fallback=/b",
        "/admin/moveclients?mount=/r",
        "/admin/moveclients?destination=/r",
        "/admin/killsource?x=y",
    ] {
        assert_eq!(
            status_and_text(handle_get(&mut server, &head(target, ADMIN), 0)),
            (400, "Invalid query", false)
        );
    }
    assert_eq!(
        status_and_text(handle_get(&mut server, &head("/api/mountinfo", ""), 0)),
        (400, "Invalid query", false)
    );
}

#[test]
fn unknown_path_is_not_found() {
    let mut server = server();
    for target in ["/nothing", "/admin", "/admin/other?mount=/r", "/api", "/"] {
        let plan = handle_get(&mut server, &head(target, ADMIN), 0);
        assert!(matches!(plan, GetPlan::Control(Answer::NotFound)));
    }
    assert_eq!(Answer::NotFound.status(), 404);
}

#[test]
fn path_is_cleaned_before_it_is_looked_up() {
    let mut server = server();
    let plan = handle_get(&mut server, &head("/admin/../api//./stats", ""), 10);
    assert!(matches!(plan, GetPlan::Control(Answer::Totals(_))));
    let plan = handle_get(&mut server, &head("/x/../r/", ""), 10);
    assert!(matches!(plan, GetPlan::Listen { .. }));
}

#[test]
fn listener_request_is_recognised() {
    let mut server = server();
    match handle_get(&mut server, &head("/r", "Icy-MetaData: 1\r\nUser-Agent: vlc\r\n"), 0) {
        GetPlan::Listen { mount, meta_enabled, uagent } => {
            assert_eq!(mount, "/r");
            assert!(meta_enabled);
            assert_eq!(uagent.as_deref(), Some("vlc"));
        }
        _ => panic!("a listener was expected"),
    }
    match handle_get(&mut server, &head("/r/?x=1", "icy-metadata: 0\r\n"), 0) {
        GetPlan::Listen { mount, meta_enabled, uagent } => {
            assert_eq!(mount, "/r");
            assert!(!meta_enabled);
            assert_eq!(uagent, None);
        }
        _ => panic!("a listener was expected"),
    }
    assert!(server.sources[0].clients.is_empty());
    server.properties.limits.clients = 0;
    assert!(matches!(
        handle_get(&mut server, &head("/r", ""), 0),
        GetPlan::Refuse(Refusal::TooManyListeners)
    ));
}

#[test]
fn metadata_update_is_spliced_into_the_stream() {
    let mut server = server();
    assert!(server.attach_listener("/r", listener(1, true), 0).is_ok());
    let plan = handle_get(
        &mut server,
        &head("/admin/metadata?mode=updinfo&mount=/r&song=x&url=", ADMIN),
        0,
    );
    assert_eq!(status_and_text(plan), (200, "Success", false));
    let expected = Some(Metadata { title: Some("x".to_string()), url: Some(String::new()) });
    assert_eq!(server.sources[0].metadata, expected);
    let block = get_metadata_vec(&expected);
    assert_eq!(server.sources[0].metadata_vec, block);
    let mut with_text = vec![2u8];
    with_text.extend_from_slice(b"StreamTitle='x';StreamUrl='';\0\0\0");
    assert_eq!(block, with_text);

    let data: Vec<u8> = (100..148u8).collect();
    server.feed("/r", data[..20].to_vec());
    server.feed("/r", data[20..].to_vec());
    let mut out = Vec::new();
    let mut sent = 0usize;
    loop {
        match server.next_blob(1) {
            Delivery::Blob(blob) => {
                let meta = server.metadata_for(1);
                write_to_client(&mut out, &mut sent, 16, &blob, &meta);
                server.record_sent(1, blob.len());
            }
            _ => break,
        }
    }
    let mut expected = Vec::new();
    for part in data.chunks(16) {
        expected.extend_from_slice(part);
        expected.extend_from_slice(&block);
    }
    assert_eq!(out, expected);
    assert_eq!(&out[16..16 + 33], &block[..]);
    assert_eq!(&out[16 + 33 + 16..16 + 33 + 16 + 33], &block[..]);
    assert_eq!(&out[out.len() - 33..], &block[..]);
    assert_eq!(server.sources[0].clients[0].stats.bytes_sent, 48);
}

#[test]
fn metadata_without_title_and_url_is_none() {
    let mut server = server();
    assert_eq!(server.update_metadata("/r", Some("t".to_string()), None), Ok(()));
    assert_eq!(
        server.sources[0].metadata,
        Some(Metadata { title: Some("t".to_string()), url: None })
    );
    let plan = handle_get(&mut server, &head("/admin/metadata?mode=updinfo&mount=/r", ADMIN), 0);
    assert_eq!(status_and_text(plan), (200, "Success", false));
    assert_eq!(server.sources[0].metadata, None);
    assert_eq!(server.sources[0].metadata_vec, vec![0]);
    assert_eq!(server.update_metadata("/x", None, None), Err(AdminError::UnknownMount));
    let plan = handle_get(&mut server, &head("/admin/metadata?mode=updinfo&mount=/x", ADMIN), 0);
    assert_eq!(status_and_text(plan), (403, "Invalid mount", false));
}

#[test]
fn fallback_is_set_and_cleared() {
    let mut server = server();
    let plan = handle_get(&mut server, &head("/admin/fallbacks?mount=/r&fallback=/b", ADMIN), 0);
    assert_eq!(status_and_text(plan), (200, "Success", true));
    assert_eq!(server.sources[0].fallback.as_deref(), Some("/b"));
    let plan = handle_get(&mut server, &head("/admin/fallbacks?mount=/r", ADMIN), 0);
    assert_eq!(status_and_text(plan), (200, "Success", true));
    assert_eq!(server.sources[0].fallback, None);
    let plan = handle_get(&mut server, &head("/admin/fallbacks?mount=/x", ADMIN), 0);
    assert_eq!(status_and_text(plan), (403, "Invalid mount", false));
    assert_eq!(server.set_fallback("/x", None), Err(AdminError::UnknownMount));
}

#[test]
fn listeners_are_moved() {
    let mut server = server();
    assert_eq!(
        server.mount("/s".to_string(), icy::Properties::new("a/b".to_string()), 0, false),
        Ok(())
    );
    assert!(server.attach_listener("/r", listener(1, false), 0).is_ok());
    assert!(server.attach_listener("/r", listener(2, false), 0).is_ok());
    assert!(server.attach_listener("/s", listener(3, false), 0).is_ok());
    let plan =
        handle_get(&mut server, &head("/admin/moveclients?mount=/r&destination=/s", ADMIN), 0);
    assert_eq!(status_and_text(plan), (200, "Success", true));
    assert!(server.sources[0].clients.is_empty());
    let ids: Vec<u128> = server.sources[1].clients.iter().map(|c| c.properties.id).collect();
    assert_eq!(ids, vec![3, 1, 2]);
    assert!(server.sources[1].clients.iter().all(|c| c.source == "/s"));
    assert_eq!(server.clients.len(), 3);
    assert_eq!(server.move_clients("/s", "/s"), Ok(()));
    assert_eq!(server.sources[1].clients.len(), 3);
    assert_eq!(server.move_clients("/s", "/x"), Err(AdminError::UnknownMount));
    assert_eq!(server.move_clients("/x", "/s"), Err(AdminError::UnknownMount));
    let plan =
        handle_get(&mut server, &head("/admin/moveclients?mount=/r&destination=/x", ADMIN), 0);
    assert_eq!(status_and_text(plan), (403, "Invalid mount", false));
    assert_eq!(server.sources[1].clients.len(), 3);
}

#[test]
fn source_is_asked_to_stop() {
    let mut server = server();
    assert!(!server.should_stop("/r"));
    assert!(server.should_stop("/x"));
    let plan = handle_get(&mut server, &head("/admin/killsource?mount=/r", ADMIN), 0);
    assert_eq!(status_and_text(plan), (200, "Success", true));
    assert!(server.sources[0].disconnect_flag);
    assert!(server.should_stop("/r"));
    assert_eq!(server.kill_source("/r"), Ok(()));
    assert!(server.sources[0].disconnect_flag);
    assert_eq!(server.kill_source("/x"), Err(AdminError::UnknownMount));
}

#[test]
fn listeners_of_a_source_are_listed() {
    let mut server = server();
    assert!(server.attach_listener("/r", listener(7, true), 21).is_ok());
    assert!(server.attach_listener("/r", listener(8, false), 22).is_ok());
    server.record_sent(8, 5);
    match handle_get(&mut server, &head("/admin/listclients?mount=/r", ADMIN), 0) {
        GetPlan::Control(Answer::Clients(list)) => {
            assert_eq!(
                list,
                vec![
                    (listener(7, true), client::Stats { start_time: 21, bytes_sent: 0 }),
                    (listener(8, false), client::Stats { start_time: 22, bytes_sent: 5 }),
                ]
            );
        }
        _ => panic!("a list of listeners was expected"),
    }
    assert_eq!(
        status_and_text(handle_get(&mut server, &head("/admin/listclients?mount=/x", ADMIN), 0)),
        (403, "Invalid mount", false)
    );
    assert_eq!(server.list_clients("/x"), None);
}

#[test]
fn sources_are_described() {
    let mut server = server();
    assert!(server.attach_listener("/r", listener(7, true), 21).is_ok());
    assert_eq!(server.set_fallback("/r", Some("/f".to_string())), Ok(()));
    assert_eq!(server.update_metadata("/r", Some("t".to_string()), None), Ok(()));
    server.feed("/r", b"12345".to_vec());
    match handle_get(&mut server, &head("/admin/listmounts", ADMIN), 0) {
        GetPlan::Control(Answer::Mounts(list)) => {
            assert_eq!(list.len(), 1);
            let info = &list[0];
            assert_eq!(info.mountpoint, "/r");
            assert_eq!(info.fallback.as_deref(), Some("/f"));
            assert_eq!(
                info.metadata,
                Some(Metadata { title: Some("t".to_string()), url: None })
            );
            assert_eq!(info.properties, icy::Properties::new("audio/mpeg".to_string()));
            assert_eq!(
                info.stats,
                source::Stats { start_time: 3, bytes_read: 5, peak_listeners: 1 }
            );
            assert_eq!(info.clients, vec![7]);
        }
        _ => panic!("a list of sources was expected"),
    }
    match handle_get(&mut server, &head("/api/mountinfo?mount=/r", ""), 0) {
        GetPlan::Control(Answer::Mount(info)) => {
            assert_eq!(info.mountpoint, "/r");
            assert_eq!(info.clients.len(), 1);
            assert_eq!(info.stats.peak_listeners, 1);
        }
        _ => panic!("a source was expected"),
    }
    assert_eq!(
        status_and_text(handle_get(&mut server, &head("/api/mountinfo?mount=/x", ""), 0)),
        (403, "Invalid mount", false)
    );
    assert!(server.mount_info("/x").is_none());
}

#[test]
fn server_tells_of_itself() {
    let mut server = server();
    server.stats.start_time = 100;
    assert!(server.attach_listener("/r", listener(7, true), 21).is_ok());
    assert!(server.attach_listener("/r", listener(8, true), 21).is_ok());
    server.detach_listener(7);
    match handle_get(&mut server, &head("/api/serverinfo", ""), 0) {
        GetPlan::Control(Answer::Server(info)) => {
            assert_eq!(info.mounts, vec!["/r".to_string()]);
            assert_eq!(info.server_id, "Rusty Zenith 0.1.0");
            assert_eq!(info.admin, "admin@localhost");
            assert_eq!(info.host, "localhost");
            assert_eq!(info.location, "1.048596");
            assert_eq!(info.description, "Yet Another Internet Radio");
            assert_eq!(info.start_time, 100);
            assert_eq!(info.peak_listeners, 2);
            assert_eq!(info.current_listeners, 1);
        }
        _ => panic!("the server was expected"),
    }
}

#[test]
fn totals_add_what_is_gone_and_what_is_there() {
    let mut server = server();
    server.stats.start_time = 100;
    assert_eq!(
        server.mount("/s".to_string(), icy::Properties::new("a/b".to_string()), 0, false),
        Ok(())
    );
    assert!(server.attach_listener("/r", listener(1, false), 0).is_ok());
    assert!(server.attach_listener("/r", listener(2, false), 0).is_ok());
    assert!(server.attach_listener("/s", listener(3, false), 0).is_ok());
    assert!(server.attach_listener("/s", listener(4, false), 0).is_ok());
    server.feed("/r", vec![0; 10]);
    server.feed("/s", vec![0; 7]);
    server.record_sent(1, 1);
    server.record_sent(2, 20);
    server.record_sent(3, 300);
    server.record_sent(4, 4000);
    server.detach_listener(4);
    assert_eq!(
        server.stats(160),
        Totals {
            uptime: 60,
            peak_listeners: 4,
            session_bytes_read: 17,
            session_bytes_sent: 4321,
        }
    );
    assert!(server.unmount("/s"));
    let totals = server.stats(50);
    assert_eq!(totals.uptime, 0);
    assert_eq!(totals.session_bytes_read, 17);
    // the listener that was sent away is counted again when it leaves
    assert_eq!(totals.session_bytes_sent, 4021);
    server.detach_listener(3);
    assert_eq!(server.stats(100).session_bytes_sent, 4321);
    match handle_get(&mut server, &head("/api/stats", ""), 160) {
        GetPlan::Control(Answer::Totals(t)) => assert_eq!(t.uptime, 60),
        _ => panic!("totals were expected"),
    }
}

#[test]
fn commands_are_made_from_queries() {
    let (_, queries) = extract_queries("/x?mount=/a&mount=/b&id=7&destination=/c");
    match command_of(Endpoint::KillClient, &queries) {
        Some(Command::KillClient { mount, id }) => {
            assert_eq!(mount, "/b");
            assert_eq!(id, "7");
        }
        _ => panic!("a command was expected"),
    }
    assert!(matches!(
        command_of(Endpoint::MoveClients, &queries),
        Some(Command::MoveClients { .. })
    ));
    assert!(matches!(command_of(Endpoint::Metadata, &queries), None));
    assert!(matches!(command_of(Endpoint::KillSource, &None), None));
    assert!(matches!(command_of(Endpoint::Stats, &None), Some(Command::Stats)));
    assert!(matches!(command_of(Endpoint::ListMounts, &None), Some(Command::ListMounts)));
    assert!(matches!(command_of(Endpoint::ServerInfo, &queries), Some(Command::ServerInfo)));
}

#[test]
fn control_and_execute_answer_directly() {
    let mut server = server();
    let admin = Some(("admin".to_string(), "hackme".to_string()));
    let (_, queries) = extract_queries("/admin/killsource?mount=/r");
    let answer = control(&mut server, "/admin/killsource", &queries, admin, 0);
    assert_eq!(answer.status(), 200);
    assert!(server.sources[0].disconnect_flag);
    let answer = execute(&mut server, Command::KillSource { mount: "/q".to_string() }, 0);
    assert_eq!(answer.status(), 403);
    let answer = control(&mut server, "/admin/killsource", &queries, None, 0);
    assert_eq!(answer.status(), 401);
}
