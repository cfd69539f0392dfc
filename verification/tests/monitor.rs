use downloader::monitor::{
    accepts_url, classify_packet, missing_config_key, read_packet, reply_text, ConfigFields,
    MonitorAction, MonitorState, Packet, PacketOutcome,
};

fn packet(event: Option<&str>) -> Packet {
    Packet {
        event: event.map(|e| e.to_string()),
        config: None,
        url: None,
        id: None,
        mime: None,
    }
}

#[test]
fn url_check_uses_url_pattern() {
    assert!(accepts_url("https://hello.com"));
    assert!(accepts_url("https://hello.com/example"));
    assert!(!accepts_url("hello"));
    assert!(!accepts_url(""));
}

#[test]
fn packet_with_url_and_name() {
    match classify_packet("https://hello.com/f.zip{|}/tmp/f.zip") {
        PacketOutcome::Download { url, filename } => {
            assert_eq!(url, "https://hello.com/f.zip");
            assert_eq!(filename, "/tmp/f.zip");
        }
        _ => panic!("expected a download"),
    }
}

#[test]
fn packet_without_valid_url() {
    match classify_packet("notaurl{|}f") {
        PacketOutcome::NotAUrl { url, filename } => {
            assert_eq!(url, "notaurl");
            assert_eq!(filename, "f");
        }
        _ => panic!("expected a rejected URL"),
    }
}

#[test]
fn packet_shapes() {
    assert!(matches!(classify_packet("abc"), PacketOutcome::Unrecognized));
    assert!(matches!(classify_packet("a{|}b{|}c"), PacketOutcome::WrongFieldCount));
    assert!(matches!(classify_packet("{|}"), PacketOutcome::NotAUrl { .. }));
}

#[test]
fn initial_thread_counts() {
    let s = MonitorState::new(8, "/dl".to_string());
    assert_eq!((s.max_threads, s.min_threads, s.threads), (4, 3, 8));
    let s = MonitorState::new(7, "/dl".to_string());
    assert_eq!((s.max_threads, s.min_threads), (4, 3));
    let s = MonitorState::new(1, "/dl".to_string());
    assert_eq!((s.max_threads, s.min_threads), (1, 1));
}

#[test]
fn get_config_reports_settings() {
    let mut s = MonitorState::new(8, "/dl".to_string());
    match s.step(packet(Some("GET_DEFAULT_CONFIG")), false) {
        MonitorAction::SendConfig { event, download, max, min, total } => {
            assert_eq!(event, "GET_DEFAULT_CONFIG");
            assert_eq!(download, "/dl");
            assert_eq!((max, min, total), (4, 3, 8));
        }
        _ => panic!("expected the settings"),
    }
}

#[test]
fn set_config_saves_settings() {
    let mut s = MonitorState::new(8, "/dl".to_string());
    let mut p = packet(Some("SET_CONFIG"));
    p.config = Some(ConfigFields {
        download_threads_max: Some(Some(0)),
        download_threads_min: Some(Some(2)),
        download: Some(Some("/new".to_string())),
    });
    assert!(matches!(s.step(p, true), MonitorAction::Saved));
    assert_eq!(s.download_folder, "/new");
    assert_eq!((s.max_threads, s.min_threads), (1, 2));
}

#[test]
fn set_config_with_missing_folder_keeps_folder() {
    let mut s = MonitorState::new(8, "/dl".to_string());
    let mut p = packet(Some("SET_CONFIG"));
    p.config = Some(ConfigFields {
        download_threads_max: Some(Some(6)),
        download_threads_min: Some(Some(0)),
        download: Some(Some("/nowhere".to_string())),
    });
    match s.step(p, false) {
        MonitorAction::MissingDirectory { download } => assert_eq!(download, "/nowhere"),
        _ => panic!("expected a missing folder"),
    }
    assert_eq!(s.download_folder, "/dl");
    assert_eq!((s.max_threads, s.min_threads), (6, 1));
}

#[test]
fn set_config_with_missing_field_is_ignored() {
    let mut s = MonitorState::new(8, "/dl".to_string());
    let mut p = packet(Some("SET_CONFIG"));
    p.config = Some(ConfigFields {
        download_threads_max: Some(Some(6)),
        download_threads_min: Some(None),
        download: Some(Some("/x".to_string())),
    });
    assert!(!missing_config_key(&p));
    assert!(matches!(s.step(p, true), MonitorAction::Ignore));
    assert_eq!((s.max_threads, s.min_threads), (4, 3));
    assert!(matches!(s.step(packet(Some("SET_CONFIG")), true), MonitorAction::Ignore));
}

#[test]
fn download_created_asks_for_download() {
    let mut s = MonitorState::new(8, "/dl".to_string());
    let mut p = packet(Some("download_created"));
    p.url = Some("https://a.com/x/file.iso".to_string());
    p.id = Some(7);
    p.mime = Some("application/x-iso".to_string());
    match s.step(p, false) {
        MonitorAction::Download { url, id, mime, filename } => {
            assert_eq!(url, "https://a.com/x/file.iso");
            assert_eq!(id, 7);
            assert_eq!(mime, "application/x-iso");
            assert_eq!(filename, "file.iso");
        }
        _ => panic!("expected a download"),
    }
    let mut q = packet(Some("download_created"));
    q.url = Some("https://a.com/".to_string());
    q.mime = Some("m".to_string());
    assert!(matches!(s.step(q, false), MonitorAction::Ignore));
}

#[test]
fn other_events_get_pong() {
    let mut s = MonitorState::new(2, "/dl".to_string());
    match s.step(packet(Some("PING")), false) {
        MonitorAction::Pong { event } => assert_eq!(event, "PING"),
        _ => panic!("expected a pong"),
    }
    assert!(matches!(s.step(packet(None), false), MonitorAction::Ignore));
}

#[test]
fn read_packet_picks_fields() {
    let p = read_packet(r#"{"event":"download_created","url":"https://a.com/f","id":3,"mime":"text/plain"}"#).unwrap();
    assert_eq!(p.event.as_deref(), Some("download_created"));
    assert_eq!(p.url.as_deref(), Some("https://a.com/f"));
    assert_eq!(p.id, Some(3));
    assert_eq!(p.mime.as_deref(), Some("text/plain"));
    assert!(p.config.is_none());
    let q = read_packet(r#"{"event":7,"id":"x","config":{"download_threads_max":2,"download":5}}"#).unwrap();
    assert!(q.event.is_none());
    assert!(q.id.is_none());
    let c = q.config.unwrap();
    assert_eq!(c.download_threads_max, Some(Some(2)));
    assert_eq!(c.download_threads_min, None);
    assert_eq!(c.download, Some(None));
    assert!(read_packet("not json").is_none());
}

#[test]
fn packet_download_dir() {
    let p = read_packet(r#"{"event":"SET_CONFIG","config":{"download":"/tmp/x"}}"#).unwrap();
    assert_eq!(p.download_dir().as_deref(), Some("/tmp/x"));
    let q = read_packet(r#"{"event":"SET_CONFIG","config":{"download":1}}"#).unwrap();
    assert_eq!(q.download_dir(), None);
}

#[test]
fn missing_settings_keys() {
    let p = read_packet(r#"{"event":"SET_CONFIG","config":{}}"#).unwrap();
    assert!(missing_config_key(&p));
    let q = read_packet(r#"{"event":"SET_CONFIG","config":{"download_threads_max":"a"}}"#).unwrap();
    assert!(!missing_config_key(&q));
    let r = read_packet(r#"{"event":"SET_CONFIG","config":{"download_threads_max":1,"download_threads_min":1}}"#).unwrap();
    assert!(missing_config_key(&r));
    let t = read_packet(r#"{"event":"PING","config":{}}"#).unwrap();
    assert!(!missing_config_key(&t));
}

#[test]
fn reply_texts() {
    let mut s = MonitorState::new(8, "/dl".to_string());
    let a = s.step(packet(Some("GET_DEFAULT_CONFIG")), false);
    assert_eq!(
        reply_text(&a).unwrap(),
        r#"{"download":"/dl","download_threads_max":4,"download_threads_min":3,"event":"GET_DEFAULT_CONFIG","total_threads":8}"#
    );
    assert_eq!(reply_text(&MonitorAction::Saved).unwrap(), "Saved");
    assert_eq!(reply_text(&MonitorAction::Pong { event: "X".to_string() }).unwrap(), "PONG! --> X");
    assert!(reply_text(&MonitorAction::Ignore).is_none());
    assert!(reply_text(&MonitorAction::MissingDirectory { download: "d".to_string() }).is_none());
}
