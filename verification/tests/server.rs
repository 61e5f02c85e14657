use rusty_zenith::icy;
use rusty_zenith::server::{
    default_property_limits_burst_size, default_property_limits_clients,
    default_property_limits_source_timeout, default_property_master_server_url,
    default_property_users, validate_user, AdmissionError, Limits, MountLimits, Properties,
    Server, Stats,
};
use rusty_zenith::source;

fn props() -> icy::Properties {
    icy::Properties::new("audio/mpeg".to_string())
}

#[test]
fn defaults_of_the_configuration() {
    let p = Properties::new();
    assert_eq!(p.address, "0.0.0.0");
    assert_eq!(p.port, 8000);
    assert_eq!(p.metaint, 16000);
    assert_eq!(p.server_id, "Rusty Zenith 0.1.0");
    assert_eq!(p.admin, "admin@localhost");
    assert_eq!(p.host, "localhost");
    assert_eq!(p.location, "1.048596");
    assert_eq!(p.description, "Yet Another Internet Radio");
    assert_eq!(p.limits.clients, 400);
    assert_eq!(p.limits.sources, 4);
    assert_eq!(p.limits.total_sources, 4);
    assert_eq!(p.limits.queue_size, 102400);
    assert_eq!(p.limits.burst_size, 65536);
    assert_eq!(p.limits.header_timeout, 15000);
    assert_eq!(p.limits.source_timeout, 10000);
    assert_eq!(p.limits.http_max_length, 8192);
    assert_eq!(p.limits.http_max_redirects, 5);
    assert_eq!(
        p.limits.source_limits,
        vec![MountLimits {
            mountpoint: "/radio".to_string(),
            limits: source::Limits { clients: 400, burst_size: 65536, source_timeout: 10000 },
        }]
    );
    assert_eq!(p.users, default_property_users());
    assert_eq!(p.users.len(), 2);
    assert_eq!(p.users[0].username, "admin");
    assert_eq!(p.users[1].username, "source");
    assert_eq!(p.users[1].password, "hackme");
    assert!(!p.master_server.enabled);
    assert_eq!(p.master_server.url, "http://localhost:8001");
    assert_eq!(p.master_server.update_interval, 120);
    assert_eq!(p.master_server.relay_limit, 4);
    assert_eq!(default_property_limits_clients(), 400);
    assert_eq!(default_property_limits_burst_size(), 65536);
    assert_eq!(default_property_limits_source_timeout(), 10000);
    assert_eq!(default_property_master_server_url(), "http://localhost:8001");
}

#[test]
fn users_are_known_by_name_and_password() {
    let p = Properties::new();
    assert!(validate_user(&p, "admin".to_string(), "hackme".to_string()));
    assert!(validate_user(&p, "source".to_string(), "hackme".to_string()));
    assert!(!validate_user(&p, "admin".to_string(), "Hackme".to_string()));
    assert!(!validate_user(&p, "hackme".to_string(), "admin".to_string()));
    assert!(!validate_user(&p, String::new(), String::new()));
    let mut nobody = Properties::new();
    nobody.users.clear();
    assert!(!validate_user(&nobody, "admin".to_string(), "hackme".to_string()));
}

#[test]
fn new_server_is_empty() {
    let server = Server::new(Properties::new());
    assert!(server.sources.is_empty());
    assert!(server.clients.is_empty());
    assert!(server.detached.is_empty());
    assert_eq!(server.source_count, 0);
    assert_eq!(server.relay_count, 0);
    assert_eq!(server.stats, Stats::new());
    assert_eq!(
        server.stats,
        Stats { start_time: 0, peak_listeners: 0, session_bytes_sent: 0, session_bytes_read: 0 }
    );
}

#[test]
fn start_of_the_server_is_noted() {
    let mut server = Server::new(Properties::new());
    server.started(1475419451);
    assert_eq!(server.stats.start_time, 1475419451);
    assert_eq!(server.stats.peak_listeners, 0);
    assert_eq!(server.stats(1475419461).uptime, 10);
}

#[test]
fn limits_of_a_mountpoint() {
    let mut limits: Limits = Properties::new().limits;
    limits.source_limits = vec![
        MountLimits {
            mountpoint: "/a".to_string(),
            limits: source::Limits { clients: 1, burst_size: 10, source_timeout: 20 },
        },
        MountLimits {
            mountpoint: "/a".to_string(),
            limits: source::Limits { clients: 2, burst_size: 30, source_timeout: 40 },
        },
    ];
    assert_eq!(
        limits.for_mount("/a"),
        Some(source::Limits { clients: 1, burst_size: 10, source_timeout: 20 })
    );
    assert_eq!(limits.for_mount("/b"), None);
    assert_eq!(limits.burst_size_for("/a"), 10);
    assert_eq!(limits.burst_size_for("/b"), 65536);
    assert_eq!(limits.source_timeout_for("/a"), 20);
    // a mountpoint without limits of its own has the time of a request head
    assert_eq!(limits.source_timeout_for("/b"), 15000);
}

#[test]
fn source_is_mounted_once() {
    let mut server = Server::new(Properties::new());
    assert_eq!(server.mount("/a".to_string(), props(), 7, false), Ok(()));
    assert_eq!(server.sources.len(), 1);
    assert_eq!(server.source_count, 1);
    assert_eq!(server.relay_count, 0);
    let source = &server.sources[0];
    assert_eq!(source.mountpoint, "/a");
    assert_eq!(source.metadata, None);
    assert_eq!(source.metadata_vec, vec![0]);
    assert!(source.clients.is_empty());
    assert!(source.burst_buffer.is_empty());
    assert_eq!(source.stats, source::Stats { start_time: 7, bytes_read: 0, peak_listeners: 0 });
    assert_eq!(source.fallback, None);
    assert!(!source.disconnect_flag);
    assert!(!source.relay);
    assert_eq!(
        server.mount("/a".to_string(), props(), 8, false),
        Err(AdmissionError::MountInUse)
    );
    assert_eq!(
        server.mount("/a".to_string(), props(), 8, true),
        Err(AdmissionError::MountInUse)
    );
    assert_eq!(server.sources.len(), 1);
    assert_eq!(server.source_index("/a"), 0);
    assert_eq!(server.source_index("/b"), 1);
}

#[test]
fn limits_on_sources_are_kept() {
    let mut properties = Properties::new();
    properties.limits.sources = 2;
    properties.limits.total_sources = 4;
    properties.master_server.relay_limit = 1;
    let mut server = Server::new(properties);
    assert_eq!(server.mount("/a".to_string(), props(), 0, false), Ok(()));
    assert_eq!(server.mount("/b".to_string(), props(), 0, false), Ok(()));
    assert_eq!(
        server.mount("/c".to_string(), props(), 0, false),
        Err(AdmissionError::SourceLimit)
    );
    assert_eq!(server.check_admission("/c", false), Some(AdmissionError::SourceLimit));
    assert_eq!(server.check_admission("/c", true), None);
    assert_eq!(server.mount("/c".to_string(), props(), 0, true), Ok(()));
    assert_eq!(
        server.mount("/d".to_string(), props(), 0, true),
        Err(AdmissionError::RelayLimit)
    );
    assert_eq!(server.source_count, 2);
    assert_eq!(server.relay_count, 1);
    assert_eq!(server.source_count + server.relay_count, server.sources.len());
    assert!(server.sources[2].relay);

    let mut properties = Properties::new();
    properties.limits.sources = 5;
    properties.limits.total_sources = 1;
    let mut server = Server::new(properties);
    assert_eq!(server.mount("/a".to_string(), props(), 0, true), Ok(()));
    assert_eq!(
        server.mount("/b".to_string(), props(), 0, false),
        Err(AdmissionError::TotalSourceLimit)
    );
    assert_eq!(
        server.mount("/b".to_string(), props(), 0, true),
        Err(AdmissionError::TotalSourceLimit)
    );
}

#[test]
fn counters_follow_mounting_and_unmounting() {
    let mut server = Server::new(Properties::new());
    assert_eq!(server.mount("/a".to_string(), props(), 0, false), Ok(()));
    assert_eq!(server.mount("/b".to_string(), props(), 0, true), Ok(()));
    assert_eq!(server.mount("/c".to_string(), props(), 0, false), Ok(()));
    assert_eq!((server.source_count, server.relay_count, server.sources.len()), (2, 1, 3));
    assert!(server.unmount("/b"));
    assert_eq!((server.source_count, server.relay_count, server.sources.len()), (2, 0, 2));
    assert!(!server.unmount("/b"));
    assert_eq!((server.source_count, server.relay_count, server.sources.len()), (2, 0, 2));
    assert!(server.unmount("/a"));
    assert!(server.unmount("/c"));
    assert_eq!((server.source_count, server.relay_count, server.sources.len()), (0, 0, 0));
}
