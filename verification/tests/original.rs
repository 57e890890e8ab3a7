use lview::app::{App, LogViewer};
use lview::config::Config;
use lview::discovery::LogSource;
use lview::log_stream::build_command;
use lview::search::SearchState;
use lview::ssh::{SshSession, SshTarget};

#[test]
fn test_log_viewer_push_and_scroll() {
    let (_tx, rx) = tokio::sync::mpsc::unbounded_channel();
    let mut v = LogViewer::new(LogSource::File { path: "/tmp/test.log".into() }, rx, 100);
    for i in 0..5 {
        v.push_line(format!("line {}", i));
    }
    assert_eq!(v.buffer.len(), 5);
    assert_eq!(v.scroll, 4);
    v.scroll_up(2);
    assert_eq!(v.scroll, 2);
    v.toggle_live();
    assert!(v.live);
    assert_eq!(v.scroll, 4);
}

#[test]
fn test_app_filter() {
    let session = SshSession::new("ssh".into(), SshTarget { args: vec!["host".into()] });
    let rt = tokio::runtime::Runtime::new().unwrap();
    let mut app = App::new(session, Config::default(), rt.handle().clone());
    app.logs = vec![
        LogSource::File { path: "/var/log/syslog".into() },
        LogSource::File { path: "/opt/app/app.log".into() },
    ];
    app.picker_filter = "syslog".into();
    app.apply_picker_filter();
    assert_eq!(app.filtered_indices, vec![0]);
}

#[test]
fn test_categories() {
    assert_eq!(LogSource::File { path: "/var/log/syslog".into() }.category(), "system");
    assert_eq!(LogSource::File { path: "/opt/app/app.log".into() }.category(), "opt");
    assert_eq!(
        LogSource::Docker { container: "c".into(), image: "i".into() }.category(),
        "docker"
    );
}

#[test]
fn test_build_command() {
    let s = LogSource::File { path: "/var/log/syslog".into() };
    assert!(build_command(&s, 100).contains("tail -n 100 -f /var/log/syslog"));

    let d = LogSource::Docker { container: "web".into(), image: "nginx".into() };
    assert!(build_command(&d, 50).contains("docker logs -f --tail 50 web"));
}

#[test]
fn test_search_matches() {
    let s = SearchState { query: "err".into(), ..Default::default() };
    assert!(s.matches("ERROR: something failed"));
    assert!(!s.matches("INFO: ok"));
}

#[test]
fn test_next_prev() {
    let lines = vec![
        "INFO ok".into(),
        "ERROR one".into(),
        "INFO fine".into(),
        "ERROR two".into(),
    ];
    let s = SearchState { query: "ERROR".into(), ..Default::default() };
    assert_eq!(s.next_match(&lines, 0), Some(1));
    assert_eq!(s.next_match(&lines, 1), Some(3));
    assert_eq!(s.next_match(&lines, 3), Some(1));
    assert_eq!(s.prev_match(&lines, 0), Some(3));
}

#[test]
fn test_host_extraction() {
    let t = SshTarget { args: vec!["-p".into(), "22".into(), "root@192.168.53.3".into()] };
    assert_eq!(t.host(), "root@192.168.53.3");

    let t2 = SshTarget { args: vec!["-p22".into(), "root@example.com".into()] };
    assert_eq!(t2.host(), "root@example.com");
}
