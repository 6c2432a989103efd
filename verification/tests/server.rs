use qhttp::config::{Config, MILLISECOND, SECOND};
use qhttp::error::ErrorKind;
use qhttp::listener::{ConnectionInfo, Protocol, UnixInfo};
use qhttp::message::{Request, Version};
use qhttp::server::{is_usable, CounterTask, Event, RateLimit};
use qhttp::util::fs::{
    file_response, file_response_for, open_refusal, refusal, Attempt, FileServer, Lookup,
};
use std::path::PathBuf;

#[test]
fn configuration_has_defaults() {
    let config = Config::default();
    assert_eq!(config.request_header_buf_size, 4096);
    assert_eq!(config.idle_timeout, 60 * SECOND);
    assert_eq!(config.h2_writer_flush_interval, 10 * MILLISECOND);
    assert_eq!(config.h2_settings.initial_window_size, 65_535);
    assert!(is_usable(&config));
    let mut config = config;
    config.request_header_buf_size = config.request_body_buf_size + 1;
    assert!(!is_usable(&config));
}

#[test]
fn shutdown_completes_when_nothing_is_open() {
    let mut task = CounterTask::new();
    assert!(!task.is_complete());
    task.on_listener_event(Some(Event::Open));
    task.on_connection_event(Some(Event::Open));
    task.on_connection_event(Some(Event::Open));
    task.on_shutdown();
    assert!(!task.is_complete());
    task.on_listener_event(Some(Event::Close));
    task.on_connection_event(Some(Event::Close));
    assert!(!task.is_complete());
    task.on_connection_event(Some(Event::Close));
    assert!(task.is_complete());
    task.on_connection_event(Some(Event::Close));
    assert_eq!(task.connection_counter, 0);
    task.on_listener_event(None);
    task.on_connection_event(None);
    assert!(!task.listener_events_active && !task.connection_events_active);
    task.connection_counter = u128::MAX;
    task.on_connection_event(Some(Event::Open));
    assert_eq!(task.connection_counter, u128::MAX);
}

#[test]
fn connections_are_limited() {
    let mut limit = RateLimit::new(2);
    assert_eq!(limit.before_accept(1100), None);
    limit.accepted(1100);
    assert_eq!(limit.before_accept(1200), None);
    limit.accepted(1200);
    assert_eq!(limit.before_accept(1300), Some(SECOND - 200));
    assert_eq!(limit.before_accept(1100 + SECOND), None);
    limit.accepted(1150 + SECOND);
    assert_eq!(limit.times, [1200, 1150 + SECOND]);
    assert_eq!(limit.before_accept(1150 + SECOND), Some(50));
    let mut free = RateLimit::new(0);
    for _ in 0..10 {
        assert_eq!(free.before_accept(0), None);
        free.accepted(0);
    }
    assert!(free.times.is_empty());
}

#[test]
fn no_second_holds_more_connections_than_allowed() {
    let mut limit = RateLimit::new(1);
    assert_eq!(limit.before_accept(2 * SECOND), None);
    limit.accepted(2 * SECOND);
    assert_eq!(limit.before_accept(2 * SECOND), Some(SECOND));
    let mut limit = RateLimit::new(3);
    let mut now = 0;
    let mut accepted = Vec::new();
    for _ in 0..10 {
        now += limit.before_accept(now).unwrap_or(0);
        limit.accepted(now);
        accepted.push(now);
    }
    for i in 0..7 {
        assert_eq!(accepted[i + 3], accepted[i] + SECOND);
    }
}

#[test]
fn protocol_is_chosen() {
    let mut info = ConnectionInfo::default();
    assert!(!info.is_h2());
    assert_eq!(ConnectionInfo::protocol(None), Protocol::Http1);
    assert_eq!(ConnectionInfo::protocol(Some(&info)), Protocol::Http1);
    info.alpn_protocol = Some("http/1.1".into());
    assert_eq!(ConnectionInfo::protocol(Some(&info)), Protocol::Http1);
    info.alpn_protocol = Some("h2".into());
    assert!(info.is_h2());
    assert_eq!(ConnectionInfo::protocol(Some(&info)), Protocol::Http2);
}

#[test]
fn unix_sockets_are_described() {
    let path = PathBuf::from("/tmp/socket");
    let info = UnixInfo { is_unnamed: false, as_pathname: Some(path.clone()) };
    assert!(!info.is_unnamed());
    assert_eq!(info.as_pathname(), Some(&path));
    let info = UnixInfo { is_unnamed: true, as_pathname: None };
    assert!(info.is_unnamed());
    assert_eq!(info.as_pathname(), None);
}

fn served(server: &FileServer, path: &str) -> Option<String> {
    match server.look_up(path) {
        Lookup::Serve(path) => Some(path),
        _ => None,
    }
}

#[test]
fn paths_are_looked_up() {
    let mut server = FileServer::new(PathBuf::from("/srv"));
    assert!(server.hide_hidden_files());
    assert_eq!(served(&server, "///a/b.txt"), Some("a/b.txt".to_string()));
    assert_eq!(served(&server, "/"), Some(String::new()));
    assert!(matches!(server.look_up("/a/../b"), Lookup::Forbidden));
    assert!(matches!(server.look_up("../b"), Lookup::Forbidden));
    assert!(matches!(server.look_up("/.git/config"), Lookup::Hidden));
    assert!(matches!(server.look_up("/a/.b"), Lookup::Hidden));
    server.set_hide_hidden_files(false);
    assert_eq!(served(&server, "/a/.b"), Some("a/.b".to_string()));
    assert!(matches!(server.look_up("/x../y"), Lookup::Forbidden));
    assert!(matches!(server.look_up("/.."), Lookup::Forbidden));
    assert!(matches!(server.look_up("/a/.."), Lookup::Forbidden));
    assert!(matches!(server.look_up("/a.."), Lookup::Serve(_)));
}

#[test]
fn targets_are_looked_up() {
    let server = FileServer::new(PathBuf::from("/srv"));
    let mut req = Request::new(Version::Http11);
    req.target = b"http://example.org/dir/file?query".to_vec();
    match server.look_up_request(&req) {
        Some(Lookup::Serve(path)) => assert_eq!(path, "dir/file"),
        lookup => panic!("{:?}", lookup),
    }
    req.target = b"not a uri".to_vec();
    assert!(server.look_up_request(&req).is_none());
}

#[test]
fn index_files_are_tried() {
    let index = vec![PathBuf::from("index.html"), PathBuf::from("index.htm")];
    let server = FileServer::new_with_index_files(PathBuf::from("/srv"), index);
    assert_eq!(server.next_attempt(true, 0), Attempt::Index(0));
    assert_eq!(server.next_attempt(true, 1), Attempt::Index(1));
    assert_eq!(server.next_attempt(true, 2), Attempt::NotFound);
    assert_eq!(server.next_attempt(false, 0), Attempt::File);
    assert_eq!(server.next_attempt(false, 1), Attempt::NotFound);
}

#[test]
fn refused_files_are_answered() {
    assert_eq!(refusal(&Lookup::Forbidden).status, 403);
    assert_eq!(refusal(&Lookup::Hidden).status, 404);
    assert_eq!(refusal(&Lookup::Serve("x".into())).status, 404);
    assert_eq!(refusal(&Lookup::Hidden).headers["content-length"], "0");
    assert!(open_refusal(ErrorKind::NotFound).is_none());
    assert_eq!(open_refusal(ErrorKind::PermissionDenied).unwrap().status, 403);
    assert_eq!(open_refusal(ErrorKind::Other).unwrap().status, 500);
}

#[test]
fn files_are_answered_with_their_type() {
    let resp = file_response_for("/srv/a.html", true);
    assert_eq!(resp.status, 200);
    assert_eq!(resp.headers["content-type"], "text/html");
    assert_eq!(file_response_for("/srv/a.unknowntype", true).headers.len(), 0);
    let resp = file_response(Some("image/png".into()), false);
    assert_eq!(resp.status, 500);
    assert_eq!(resp.headers["content-type"], "image/png");
    assert_eq!(resp.headers["content-length"], "0");
    assert_eq!(file_response(Some("bad\ntype".into()), true).headers.len(), 0);
}
