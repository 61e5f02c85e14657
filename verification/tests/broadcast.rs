use rusty_zenith::broadcaster::broadcast_to_clients;
use rusty_zenith::client;
use rusty_zenith::icy;
use rusty_zenith::listener::{Delivery, Place, Refusal};
use rusty_zenith::server::{MountLimits, Properties, Server};
use rusty_zenith::source;

fn props() -> icy::Properties {
    icy::Properties::new("audio/mpeg".to_string())
}

fn listener(id: u128) -> client::Properties {
    client::Properties { id, uagent: None, metadata: false }
}

fn server_with(queue_size: usize, burst_size: usize) -> Server {
    let mut properties = Properties::new();
    properties.limits.queue_size = queue_size;
    properties.limits.burst_size = burst_size;
    properties.limits.source_limits = Vec::new();
    Server::new(properties)
}

fn drain(server: &mut Server, id: u128) -> (Vec<u8>, bool) {
    let mut bytes = Vec::new();
    loop {
        match server.next_blob(id) {
            Delivery::Blob(blob) => bytes.extend_from_slice(&blob),
            Delivery::Kicked => return (bytes, true),
            Delivery::Idle | Delivery::Gone => return (bytes, false),
        }
    }
}

fn check_invariants(server: &Server) {
    assert_eq!(server.source_count + server.relay_count, server.sources.len());
    for (i, s) in server.sources.iter().enumerate() {
        for (j, other) in server.sources.iter().enumerate() {
            assert!(i == j || s.mountpoint != other.mountpoint);
        }
        assert!(s.burst_buffer.len() <= server.properties.limits.burst_size_for(&s.mountpoint));
        assert_eq!(s.metadata_vec, icy::get_metadata_vec(&s.metadata));
        for c in &s.clients {
            assert_eq!(c.source, s.mountpoint);
            assert!(server.clients.iter().any(|e| e.id == c.properties.id));
            let queued: usize = c.queue.iter().map(|b| b.len()).sum();
            assert_eq!(c.buffer_size, queued);
        }
    }
    let mut ids: Vec<u128> = server
        .sources
        .iter()
        .flat_map(|s| s.clients.iter().map(|c| c.properties.id))
        .chain(server.detached.iter().map(|c| c.properties.id))
        .collect();
    let n = ids.len();
    ids.sort();
    ids.dedup();
    assert_eq!(ids.len(), n);
}

#[test]
fn fan_out_reaches_every_listener() {
    let mut server = server_with(2 << 20, 0);
    assert_eq!(server.mount("/r".to_string(), props(), 0, false), Ok(()));
    assert!(server.attach_listener("/r", listener(1), 0).is_ok());
    assert!(server.attach_listener("/r", listener(2), 0).is_ok());
    let mut sent = Vec::new();
    for i in 0..1024u32 {
        let chunk: Vec<u8> = (0..1024u32).map(|k| ((i * 31 + k * 7) % 251) as u8).collect();
        sent.extend_from_slice(&chunk);
        server.feed("/r", chunk);
    }
    assert_eq!(sent.len(), 1 << 20);
    check_invariants(&server);
    assert_eq!(server.sources[0].clients[0].buffer_size, 1 << 20);
    let (first, kicked) = drain(&mut server, 1);
    assert!(!kicked);
    assert_eq!(first, sent);
    let (second, kicked) = drain(&mut server, 2);
    assert!(!kicked);
    assert_eq!(second, sent);
    assert_eq!(server.sources[0].clients[0].buffer_size, 0);
    assert_eq!(server.sources[0].stats.bytes_read, 1 << 20);
    assert!(server.sources[0].burst_buffer.is_empty());
    check_invariants(&server);
}

#[test]
fn listener_gets_what_came_after_it_joined() {
    let mut server = server_with(1000, 4);
    assert_eq!(server.mount("/r".to_string(), props(), 0, false), Ok(()));
    assert!(server.attach_listener("/r", listener(1), 0).is_ok());
    server.feed("/r", b"abc".to_vec());
    let welcome = server.attach_listener("/r", listener(2), 0).ok().unwrap();
    assert_eq!(welcome.burst, b"abc".to_vec());
    assert_eq!(welcome.metadata, vec![0]);
    server.feed("/r", b"defg".to_vec());
    assert_eq!(drain(&mut server, 1), (b"abcdefg".to_vec(), false));
    assert_eq!(drain(&mut server, 2), (b"defg".to_vec(), false));
    assert_eq!(server.sources[0].burst_buffer, b"defg".to_vec());
}

#[test]
fn burst_replay_is_the_end_of_the_stream() {
    let mut server = server_with(102400, 65536);
    assert_eq!(server.mount("/r".to_string(), props(), 0, false), Ok(()));
    let mut sent = Vec::new();
    for i in 0..200u32 {
        let chunk: Vec<u8> = (0..1024u32).map(|k| ((i + k * 13) % 256) as u8).collect();
        sent.extend_from_slice(&chunk);
        server.feed("/r", chunk);
        assert!(server.sources[0].burst_buffer.len() <= 65536);
    }
    let welcome = server.attach_listener("/r", listener(9), 0).ok().unwrap();
    assert_eq!(welcome.burst.len(), 65536);
    assert_eq!(welcome.burst, sent[sent.len() - 65536..].to_vec());
    check_invariants(&server);

    let mut small = server_with(102400, 1 << 20);
    assert_eq!(small.mount("/r".to_string(), props(), 0, false), Ok(()));
    small.feed("/r", sent.clone());
    let welcome = small.attach_listener("/r", listener(9), 0).ok().unwrap();
    assert_eq!(welcome.burst, sent);
}

#[test]
fn burst_size_of_the_mountpoint_goes_before_the_general_one() {
    let mut properties = Properties::new();
    properties.limits.burst_size = 100;
    properties.limits.source_limits = vec![MountLimits {
        mountpoint: "/r".to_string(),
        limits: source::Limits { clients: 1, burst_size: 3, source_timeout: 1 },
    }];
    let mut server = Server::new(properties);
    assert_eq!(server.mount("/r".to_string(), props(), 0, false), Ok(()));
    assert_eq!(server.mount("/s".to_string(), props(), 0, false), Ok(()));
    server.feed("/r", b"0123456789".to_vec());
    server.feed("/s", b"0123456789".to_vec());
    assert_eq!(server.sources[0].burst_buffer, b"789".to_vec());
    assert_eq!(server.sources[1].burst_buffer, b"0123456789".to_vec());
    check_invariants(&server);
}

#[test]
fn slow_listener_is_evicted() {
    let mut server = server_with(4096, 0);
    assert_eq!(server.mount("/r".to_string(), props(), 0, false), Ok(()));
    assert!(server.attach_listener("/r", listener(5), 0).is_ok());
    assert!(server.attach_listener("/r", listener(6), 0).is_ok());
    for i in 0..8u8 {
        server.feed("/r", vec![i; 1024]);
        // the other listener keeps up
        let (bytes, kicked) = drain(&mut server, 6);
        assert_eq!(bytes, vec![i; 1024]);
        assert!(!kicked);
        check_invariants(&server);
    }
    assert_eq!(server.sources[0].clients.len(), 1);
    assert_eq!(server.sources[0].clients[0].properties.id, 6);
    assert_eq!(server.detached.len(), 1);
    assert_eq!(server.locate(5), Place::Detached { seat: 0 });
    assert_eq!(server.locate(6), Place::Attached { source: 0, seat: 0 });
    assert_eq!(server.locate(7), Place::Nowhere);
    // what was queued before the eviction still goes out, then the word to leave
    let (bytes, kicked) = drain(&mut server, 5);
    assert!(kicked);
    let mut expected = Vec::new();
    for i in 0..4u8 {
        expected.extend_from_slice(&vec![i; 1024]);
    }
    assert_eq!(bytes, expected);
    assert!(server.clients.iter().any(|e| e.id == 5));
    server.detach_listener(5);
    assert!(!server.clients.iter().any(|e| e.id == 5));
    assert!(server.detached.is_empty());
    assert!(matches!(server.next_blob(5), Delivery::Gone));
    // the source goes on
    server.feed("/r", vec![9; 100]);
    assert_eq!(drain(&mut server, 6), (vec![9; 100], false));
    assert_eq!(server.sources[0].stats.bytes_read, 8 * 1024 + 100);
    assert!(server.sources[0].burst_buffer.is_empty());
    check_invariants(&server);
}

#[test]
fn chunk_larger_than_the_queue_evicts_at_once() {
    let mut server = server_with(10, 0);
    assert_eq!(server.mount("/r".to_string(), props(), 0, false), Ok(()));
    assert!(server.attach_listener("/r", listener(1), 0).is_ok());
    server.feed("/r", vec![1; 10]);
    assert_eq!(server.sources[0].clients.len(), 1);
    server.feed("/r", vec![2; 1]);
    assert!(server.sources[0].clients.is_empty());
    let (bytes, kicked) = drain(&mut server, 1);
    assert_eq!(bytes, vec![1; 10]);
    assert!(kicked);
}

#[test]
fn closed_queue_is_evicted() {
    let mut server = server_with(100, 0);
    assert_eq!(server.mount("/r".to_string(), props(), 0, false), Ok(()));
    assert!(server.attach_listener("/r", listener(1), 0).is_ok());
    server.close_queue(1);
    assert!(server.sources[0].clients[0].closed);
    broadcast_to_clients(&mut server, "/r", b"x".to_vec());
    assert!(server.sources[0].clients.is_empty());
    assert_eq!(server.detached.len(), 1);
    assert!(server.detached[0].queue.is_empty());
    check_invariants(&server);
}

#[test]
fn broadcast_to_an_unknown_mountpoint_changes_nothing() {
    let mut server = server_with(100, 100);
    assert_eq!(server.mount("/r".to_string(), props(), 0, false), Ok(()));
    broadcast_to_clients(&mut server, "/x", b"abc".to_vec());
    server.feed("/x", b"abc".to_vec());
    server.feed("/r", Vec::new());
    assert!(server.sources[0].burst_buffer.is_empty());
    assert_eq!(server.sources[0].stats.bytes_read, 0);
    broadcast_to_clients(&mut server, "/r", b"abc".to_vec());
    assert_eq!(server.sources[0].burst_buffer, b"abc".to_vec());
    assert_eq!(server.sources[0].stats.bytes_read, 0);
}

#[test]
fn fallback_takes_the_listeners_over() {
    let mut server = server_with(1000, 10);
    assert_eq!(server.mount("/a".to_string(), props(), 0, false), Ok(()));
    assert_eq!(server.mount("/b".to_string(), props(), 0, true), Ok(()));
    assert!(server.attach_listener("/a", listener(1), 0).is_ok());
    assert!(server.attach_listener("/a", listener(2), 0).is_ok());
    assert!(server.attach_listener("/b", listener(3), 0).is_ok());
    assert_eq!(server.set_fallback("/a", Some("/b".to_string())), Ok(()));
    server.feed("/a", b"from a".to_vec());
    assert!(server.unmount("/a"));
    assert_eq!(server.sources.len(), 1);
    assert_eq!(server.sources[0].mountpoint, "/b");
    assert_eq!(server.source_index("/a"), 1);
    let ids: Vec<u128> = server.sources[0].clients.iter().map(|c| c.properties.id).collect();
    assert_eq!(ids, vec![3, 1, 2]);
    for c in &server.sources[0].clients {
        assert_eq!(c.source, "/b");
    }
    assert!(server.detached.is_empty());
    assert_eq!(server.source_count, 0);
    assert_eq!(server.relay_count, 1);
    assert_eq!(server.stats.session_bytes_read, 6);
    check_invariants(&server);
    // the listeners go on with the stream of the fallback
    server.feed("/b", b" and b".to_vec());
    assert_eq!(drain(&mut server, 1), (b"from a and b".to_vec(), false));
    assert_eq!(drain(&mut server, 3), (b" and b".to_vec(), false));
}

#[test]
fn without_fallback_the_listeners_are_sent_away() {
    let mut server = server_with(1000, 10);
    assert_eq!(server.mount("/a".to_string(), props(), 0, false), Ok(()));
    assert_eq!(server.mount("/b".to_string(), props(), 0, false), Ok(()));
    assert!(server.attach_listener("/a", listener(1), 0).is_ok());
    assert!(server.attach_listener("/b", listener(2), 0).is_ok());
    server.feed("/a", b"last".to_vec());
    assert_eq!(server.set_fallback("/b", Some("/nowhere".to_string())), Ok(()));
    assert!(server.unmount("/a"));
    assert_eq!(drain(&mut server, 1), (b"last".to_vec(), true));
    assert!(server.unmount("/b"));
    assert_eq!(drain(&mut server, 2), (Vec::new(), true));
    assert!(server.sources.is_empty());
    assert_eq!(server.detached.len(), 2);
    assert_eq!(server.clients.len(), 2);
    server.detach_listener(1);
    server.detach_listener(2);
    assert!(server.detached.is_empty());
    assert!(server.clients.is_empty());
    check_invariants(&server);
}

#[test]
fn source_that_names_itself_as_fallback_sends_its_listeners_away() {
    let mut server = server_with(1000, 10);
    assert_eq!(server.mount("/a".to_string(), props(), 0, false), Ok(()));
    assert!(server.attach_listener("/a", listener(1), 0).is_ok());
    assert_eq!(server.set_fallback("/a", Some("/a".to_string())), Ok(()));
    assert!(server.unmount("/a"));
    assert_eq!(drain(&mut server, 1), (Vec::new(), true));
}

#[test]
fn listeners_are_admitted_up_to_the_limits() {
    let mut properties = Properties::new();
    properties.limits.clients = 3;
    properties.limits.source_limits = vec![MountLimits {
        mountpoint: "/r".to_string(),
        limits: source::Limits { clients: 1, burst_size: 3, source_timeout: 1 },
    }];
    let mut server = Server::new(properties);
    assert_eq!(server.check_listener("/r"), Some(Refusal::UnknownMount));
    assert_eq!(server.attach_listener("/r", listener(1), 0).err(), Some(Refusal::UnknownMount));
    assert_eq!(server.mount("/r".to_string(), props(), 0, false), Ok(()));
    assert_eq!(server.mount("/s".to_string(), props(), 0, false), Ok(()));
    assert_eq!(server.check_listener("/r"), None);
    assert!(server.attach_listener("/r", listener(1), 11).is_ok());
    assert_eq!(server.check_listener("/r"), Some(Refusal::TooManyListeners));
    assert_eq!(
        server.attach_listener("/r", listener(2), 0).err(),
        Some(Refusal::TooManyListeners)
    );
    assert_eq!(server.attach_listener("/s", listener(1), 0).err(), Some(Refusal::IdInUse));
    assert!(server.attach_listener("/s", listener(2), 12).is_ok());
    assert!(server.attach_listener("/s", listener(3), 13).is_ok());
    assert_eq!(server.check_listener("/s"), Some(Refusal::TooManyListeners));
    assert_eq!(
        server.attach_listener("/s", listener(4), 0).err(),
        Some(Refusal::TooManyListeners)
    );
    assert_eq!(server.clients.len(), 3);
    assert_eq!(server.stats.peak_listeners, 3);
    assert_eq!(server.sources[0].stats.peak_listeners, 1);
    assert_eq!(server.sources[1].stats.peak_listeners, 2);
    assert_eq!(server.sources[1].clients[1].stats.start_time, 13);
    assert_eq!(server.sources[1].clients[1].source, "/s");
    check_invariants(&server);
    server.detach_listener(2);
    assert_eq!(server.clients.len(), 2);
    assert_eq!(server.sources[1].clients.len(), 1);
    assert_eq!(server.stats.peak_listeners, 3);
    assert_eq!(server.sources[1].stats.peak_listeners, 2);
    assert!(server.attach_listener("/s", listener(2), 0).is_ok());
    check_invariants(&server);
}

#[test]
fn bytes_sent_are_counted_and_kept() {
    let mut server = server_with(1000, 10);
    assert_eq!(server.mount("/r".to_string(), props(), 0, false), Ok(()));
    assert!(server.attach_listener("/r", listener(1), 0).is_ok());
    server.record_sent(1, 40);
    server.record_sent(1, 2);
    server.record_sent(2, 1000);
    assert_eq!(server.sources[0].clients[0].stats.bytes_sent, 42);
    server.record_sent(1, usize::MAX);
    assert_eq!(server.sources[0].clients[0].stats.bytes_sent, usize::MAX);
    server.stats.session_bytes_sent = 0;
    server.detach_listener(1);
    assert_eq!(server.stats.session_bytes_sent, usize::MAX);
    server.detach_listener(1);
    assert_eq!(server.stats.session_bytes_sent, usize::MAX);
}

#[test]
fn metadata_for_a_listener_is_that_of_its_source() {
    let mut server = server_with(1000, 10);
    assert_eq!(server.mount("/a".to_string(), props(), 0, false), Ok(()));
    assert_eq!(server.mount("/b".to_string(), props(), 0, false), Ok(()));
    assert!(server.attach_listener("/a", listener(1), 0).is_ok());
    assert_eq!(server.update_metadata("/a", Some("t".to_string()), None), Ok(()));
    assert_eq!(server.update_metadata("/b", None, Some("u".to_string())), Ok(()));
    let a = server.sources[0].metadata_vec.clone();
    let b = server.sources[1].metadata_vec.clone();
    assert_ne!(a, b);
    assert_eq!(server.metadata_for(1), a);
    assert_eq!(server.metadata_for(2), vec![0]);
    assert_eq!(server.move_clients("/a", "/b"), Ok(()));
    assert_eq!(server.metadata_for(1), b);
    assert!(server.unmount("/b"));
    assert_eq!(server.metadata_for(1), vec![0]);
}

#[test]
fn listener_that_joins_hears_the_end_of_the_stream() {
    for (burst_size, joins_after) in [(0usize, 3usize), (4, 0), (4, 1), (4, 3), (10, 5), (100, 7)] {
        let mut server = server_with(1000, burst_size);
        assert_eq!(server.mount("/r".to_string(), props(), 0, false), Ok(()));
        let chunks: Vec<Vec<u8>> = (0..8u8).map(|i| vec![i * 10, i * 10 + 1, i * 10 + 2]).collect();
        let whole: Vec<u8> = chunks.concat();
        for chunk in &chunks[..joins_after] {
            server.feed("/r", chunk.clone());
        }
        let before = chunks[..joins_after].concat();
        let welcome = server.attach_listener("/r", listener(1), 0).ok().unwrap();
        let kept = before.len().min(burst_size);
        assert_eq!(welcome.burst, before[before.len() - kept..].to_vec());
        for chunk in &chunks[joins_after..] {
            server.feed("/r", chunk.clone());
        }
        let queued: Vec<Vec<u8>> =
            server.sources[0].clients[0].queue.iter().map(|b| b.to_vec()).collect();
        assert_eq!(queued, chunks[joins_after..].to_vec());
        let mut heard = welcome.burst.clone();
        let (rest, kicked) = drain(&mut server, 1);
        assert!(!kicked);
        heard.extend_from_slice(&rest);
        assert_eq!(heard, whole[whole.len() - heard.len()..].to_vec());
        assert_eq!(heard.len(), kept + whole.len() - before.len());
        check_invariants(&server);
    }
}
