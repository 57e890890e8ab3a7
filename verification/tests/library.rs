use fuzzy_matcher::skim::SkimMatcherV2;
use fuzzy_matcher::FuzzyMatcher;
use lview::app::{App, LogViewer, Screen};
use lview::config::{default_discovery_timeout, default_max_log_lines, default_ssh_command, Config};
use lview::discovery::{
    collect_discovery, dedup_sources, docker_command, sort_sources, docker_from_output, journal_command, journal_from_output,
    opt_logs_command, parse_docker_list, parse_file_list, parse_journal_units, shell_escape,
    system_logs_command, system_logs_from_output, LogSource,
};
use lview::events::{
    command_for, handle_event, open_failed_message, saved_message, Action, Command, InputEvent, Key,
    KeyInput,
};
use lview::log_stream::build_command;
use lview::search::SearchState;
use lview::ssh::{SshSession, SshTarget};
use lview::ui::{
    list_entry, list_title, live_label, log_level_color, picker_status, viewer_status, viewport_offset,
    LevelColor,
};

fn file(p: &str) -> LogSource {
    LogSource::File { path: p.to_string() }
}

fn viewer(max: usize) -> LogViewer {
    let (_tx, rx) = tokio::sync::mpsc::unbounded_channel();
    LogViewer::new(file("/var/log/syslog"), rx, max)
}

fn lines(v: &LogViewer) -> Vec<String> {
    v.buffer.iter().cloned().collect()
}

fn app_with(logs: Vec<LogSource>, rt: &tokio::runtime::Runtime) -> App {
    let session = SshSession::new("ssh".into(), SshTarget { args: vec!["host".into()] });
    let mut app = App::new(session, Config::default(), rt.handle().clone());
    app.logs = logs;
    app.apply_picker_filter();
    app
}

fn press(c: char) -> InputEvent {
    InputEvent::Press(KeyInput { key: Key::Char(c), ctrl: false })
}

fn press_key(key: Key) -> InputEvent {
    InputEvent::Press(KeyInput { key, ctrl: false })
}

#[test]
fn buffer_keeps_newest_lines() {
    let mut v = viewer(3);
    for i in 0..5 {
        v.push_line(format!("l{}", i));
    }
    assert_eq!(lines(&v), vec!["l2", "l3", "l4"]);
    assert_eq!(v.scroll, 2);
}

#[test]
fn buffer_with_no_room_keeps_one_line() {
    let mut v = viewer(0);
    v.push_line("a".into());
    v.push_line("b".into());
    assert_eq!(lines(&v), vec!["b"]);
}

#[test]
fn error_lines_do_not_enter_the_buffer() {
    let mut v = viewer(10);
    v.push_line("ok".into());
    v.push_line("STDERR:connection refused".into());
    assert_eq!(lines(&v), vec!["ok"]);
    assert_eq!(v.error.as_deref(), Some("connection refused"));
}

#[test]
fn paused_view_keeps_its_line_when_old_lines_drop() {
    let mut v = viewer(3);
    for i in 0..3 {
        v.push_line(format!("l{}", i));
    }
    v.scroll_up(1);
    assert!(!v.live);
    assert_eq!(v.scroll, 1);
    v.push_line("l3".into());
    assert_eq!(v.scroll, 0);
    assert_eq!(v.buffer[v.scroll], "l1");
}

#[test]
fn live_view_follows_new_lines() {
    let mut v = viewer(100);
    v.push_line("a".into());
    v.push_line("b".into());
    assert!(v.live);
    assert_eq!(v.scroll, 1);
    v.push_line("c".into());
    assert_eq!(v.scroll, 2);
}

#[test]
fn scrolling_stays_in_the_buffer() {
    let mut v = viewer(100);
    for i in 0..4 {
        v.push_line(format!("l{}", i));
    }
    v.scroll_to_top();
    assert_eq!(v.scroll, 0);
    assert!(!v.live);
    v.scroll_down(100);
    assert_eq!(v.scroll, 3);
    v.scroll_up(10);
    assert_eq!(v.scroll, 0);
    v.scroll_to_bottom();
    assert_eq!(v.scroll, 3);
    assert!(!v.live);
    v.toggle_live();
    assert!(v.live);
    v.toggle_live();
    assert!(!v.live);
    assert_eq!(v.scroll, 3);
}

#[test]
fn scroll_down_on_empty_buffer_stays_at_zero() {
    let mut v = viewer(10);
    v.scroll_down(5);
    assert_eq!(v.scroll, 0);
    assert!(!v.live);
}

#[test]
fn inactive_search_shows_every_line() {
    let mut v = viewer(10);
    v.push_line("alpha".into());
    v.push_line("beta".into());
    assert_eq!(v.visible_lines().len(), 2);
    v.search.query = "(".into();
    let vis = v.visible_lines();
    assert_eq!(vis.iter().map(|(i, _)| *i).collect::<Vec<_>>(), vec![0, 1]);
}

#[test]
fn active_search_filters_lines() {
    let mut v = viewer(10);
    v.push_line("Error one".into());
    v.push_line("fine".into());
    v.push_line("another ERROR".into());
    v.search.query = "error".into();
    let vis = v.visible_lines();
    assert_eq!(vis.iter().map(|(i, _)| *i).collect::<Vec<_>>(), vec![0, 2]);
    assert_eq!(vis[1].1, "another ERROR");
}

#[test]
fn set_search_jumps_to_next_match() {
    let mut v = viewer(10);
    for l in ["a", "x1", "b", "x2"] {
        v.push_line(l.into());
    }
    v.scroll_to_top();
    v.set_search("x".into());
    assert_eq!(v.scroll, 1);
    assert_eq!(v.search_cursor, Some(1));
    assert!(!v.live);
    v.next_search_result();
    assert_eq!(v.scroll, 3);
    v.next_search_result();
    assert_eq!(v.scroll, 1);
    v.prev_search_result();
    assert_eq!(v.scroll, 3);
}

#[test]
fn set_search_without_match_keeps_view() {
    let mut v = viewer(10);
    v.push_line("a".into());
    v.push_line("b".into());
    v.set_search("zzz".into());
    assert_eq!(v.scroll, 1);
    assert_eq!(v.search_cursor, None);
    assert!(v.live);
}

#[test]
fn next_then_previous_match_returns() {
    let lines: Vec<String> = vec!["e1".into(), "x".into(), "e2".into(), "y".into(), "e3".into()];
    let s = SearchState { query: "e".into(), is_regex: true };
    for a in [0usize, 2, 4] {
        let b = s.next_match(&lines, a).unwrap();
        assert_eq!(s.prev_match(&lines, b), Some(a));
    }
}

#[test]
fn only_one_match_is_found_from_itself() {
    let lines: Vec<String> = vec!["a".into(), "hit".into(), "b".into()];
    let s = SearchState { query: "hit".into(), is_regex: true };
    assert_eq!(s.next_match(&lines, 1), Some(1));
    assert_eq!(s.prev_match(&lines, 1), Some(1));
}

#[test]
fn search_edges() {
    let lines: Vec<String> = vec!["a".into(), "b".into()];
    let empty: Vec<String> = vec![];
    let s = SearchState::default();
    assert_eq!(s.next_match(&lines, 0), None);
    assert_eq!(s.next_match(&empty, 0), None);
    let bad = SearchState { query: "[".into(), is_regex: true };
    assert!(bad.compile().is_none());
    assert!(bad.matches("anything"));
    assert_eq!(bad.next_match(&empty, 5), None);
    let s = SearchState { query: "a".into(), is_regex: true };
    assert_eq!(s.prev_match(&empty, 0), None);
    assert_eq!(s.next_match(&lines, 7), Some(0));
    assert_eq!(s.prev_match(&lines, 2), Some(0));
    assert_eq!(s.next_match(&lines, 0), Some(0));
}

#[test]
fn literal_search_escapes_the_query() {
    let lit = SearchState { query: "a.b".into(), is_regex: false };
    assert!(lit.matches("xA.By"));
    assert!(!lit.matches("axb"));
    let re = SearchState { query: "a.b".into(), is_regex: true };
    assert!(re.matches("axb"));
    let lit = SearchState { query: "(x)".into(), is_regex: false };
    assert!(lit.compile().is_some());
    assert!(lit.matches("f(x)"));
}

#[test]
fn selection_moves_undo() {
    let rt = tokio::runtime::Runtime::new().unwrap();
    let mut app = app_with(vec![file("/a"), file("/b"), file("/c")], &rt);
    assert_eq!(app.filtered_indices, vec![0, 1, 2]);
    for start in 0..3 {
        app.selected_index = start;
        app.next_log();
        app.previous_log();
        assert_eq!(app.selected_index, start);
        app.previous_log();
        app.next_log();
        assert_eq!(app.selected_index, start);
    }
    app.selected_index = 2;
    app.next_log();
    assert_eq!(app.selected_index, 0);
    app.previous_log();
    assert_eq!(app.selected_index, 2);
}

#[test]
fn picker_orders_by_score_then_position() {
    let rt = tokio::runtime::Runtime::new().unwrap();
    let logs = vec![
        file("/var/log/syslog"),
        file("/opt/app/app.log"),
        file("/var/log/auth.log"),
        LogSource::Journal { unit: "nginx.service".into() },
    ];
    let mut app = app_with(logs.clone(), &rt);
    app.selected_index = 3;
    app.picker_filter = "log".into();
    app.apply_picker_filter();
    let m = SkimMatcherV2::default();
    let mut expected: Vec<(i64, usize)> = logs
        .iter()
        .enumerate()
        .filter_map(|(i, l)| m.fuzzy_match(&l.search_text(), "log").map(|s| (s, i)))
        .collect();
    expected.sort_by_key(|p| std::cmp::Reverse(p.0));
    let expected: Vec<usize> = expected.into_iter().map(|(_, i)| i).collect();
    assert_eq!(app.filtered_indices, expected);
    assert!(app.selected_index < app.filtered_indices.len());
    app.picker_filter = "zzzzqq".into();
    app.apply_picker_filter();
    assert!(app.filtered_indices.is_empty());
    assert_eq!(app.selected_index, 0);
    assert!(app.selected_log().is_none());
}

#[test]
fn selected_log_follows_the_list() {
    let rt = tokio::runtime::Runtime::new().unwrap();
    let mut app = app_with(vec![file("/a"), file("/b")], &rt);
    app.selected_index = 1;
    assert_eq!(app.selected_log(), Some(&file("/b")));
    app.filtered_indices = vec![5];
    app.selected_index = 0;
    assert_eq!(app.selected_log(), None);
}

#[test]
fn labels_of_sources() {
    assert_eq!(file("/var/log/syslog").display_name(), "syslog (system)");
    assert_eq!(file("/var/log/nginx/access.log").display_name(), "access.log (/var/log/nginx)");
    assert_eq!(file("/opt/app/app.log").display_name(), "app.log (/opt/app)");
    assert_eq!(file("/home/u/x.log").display_name(), "x.log (/home/u/x.log)");
    assert_eq!(file("/").display_name(), "/ (/)");
    let d = LogSource::Docker { container: "web".into(), image: "nginx".into() };
    assert_eq!(d.display_name(), "web (docker: nginx)");
    assert_eq!(d.to_string(), "web (nginx)");
    assert_eq!(d.search_text(), "web (docker: nginx) web (nginx)");
    assert_eq!(d.sort_key(), "docker:web (docker: nginx)");
    let j = LogSource::Journal { unit: "cron.service".into() };
    assert_eq!(j.display_name(), "cron.service (journal)");
    assert_eq!(j.category(), "journal");
    assert_eq!(file("/home/u/x.log").category(), "other");
    assert_eq!(file("/var/log/syslog").sort_key(), "system:syslog (system)");
}

#[test]
fn shell_words() {
    assert_eq!(shell_escape("plain"), "plain");
    assert_eq!(shell_escape("a b"), "'a b'");
    assert_eq!(shell_escape("it's"), "'it'\"'\"'s'");
    assert_eq!(shell_escape("back\\slash"), "'back\\slash'");
    assert_eq!(shell_escape(""), "");
}

#[test]
fn follow_commands() {
    let j = LogSource::Journal { unit: "nginx.service".into() };
    assert_eq!(build_command(&j, 1000), "journalctl -u nginx.service -f -n 1000 --no-pager");
    let f = file("/var/log/my app.log");
    assert_eq!(build_command(&f, 0), "tail -n 0 -f '/var/log/my app.log'");
    let d = LogSource::Docker { container: "web".into(), image: "nginx".into() };
    assert_eq!(build_command(&d, 1234567), "docker logs -f --tail 1234567 web");
}

#[test]
fn discovery_commands() {
    assert_eq!(system_logs_command(), "find /var/log -maxdepth 3 -type f 2>/dev/null | head -n 200");
    assert!(docker_command().starts_with("docker ps --format"));
    assert!(journal_command().starts_with("systemctl list-units"));
    let cmd = opt_logs_command(&["/srv/logs".to_string(), "/my dir".to_string()]);
    assert_eq!(
        cmd,
        "find /opt /srv/logs '/my dir' -maxdepth 3 -type f \\( -name '*.log' -o -name 'docker-compose.yml' -o -name 'compose.yml' \\) 2>/dev/null | head -n 200"
    );
    assert!(opt_logs_command(&[]).starts_with("find /opt -maxdepth 3"));
}

#[test]
fn parsing_listings() {
    let files = parse_file_list("/var/log/a\n  \n /var/log/b \r\n");
    assert_eq!(files, vec![file("/var/log/a"), file("/var/log/b")]);
    let docker = parse_docker_list("web\tnginx\nbad line\n db \t postgres \r\n");
    assert_eq!(
        docker,
        vec![
            LogSource::Docker { container: "web".into(), image: "nginx".into() },
            LogSource::Docker { container: "db".into(), image: "postgres".into() },
        ]
    );
    let units = parse_journal_units("ssh.service loaded active running OpenSSH\nfoo.socket x\n  cron.service y\n\n");
    assert_eq!(
        units,
        vec![
            LogSource::Journal { unit: "ssh.service".into() },
            LogSource::Journal { unit: "cron.service".into() },
        ]
    );
}

#[test]
fn parsing_raw_output() {
    assert_eq!(system_logs_from_output(b"/var/log/x\n"), vec![file("/var/log/x")]);
    let odd = system_logs_from_output(b"/var/log/\xff\n");
    assert_eq!(odd, vec![file("/var/log/\u{fffd}")]);
    assert_eq!(
        docker_from_output(b"a\tb\n"),
        vec![LogSource::Docker { container: "a".into(), image: "b".into() }]
    );
    assert_eq!(journal_from_output(b"x.service\n"), vec![LogSource::Journal { unit: "x.service".into() }]);
}

#[test]
fn discovery_results_are_sorted_and_deduplicated() {
    let r = collect_discovery(
        Ok(vec![file("/var/log/syslog"), file("/var/log/auth.log")]),
        Err("no docker".into()),
        Ok(vec![file("/opt/a/x.log"), file("/var/log/syslog")]),
        Err("timed out".into()),
    );
    assert_eq!(r.sources, vec![file("/opt/a/x.log"), file("/var/log/auth.log"), file("/var/log/syslog")]);
    assert_eq!(r.errors, vec!["docker: no docker".to_string(), "journal: timed out".to_string()]);
    let r = collect_discovery(Err("e".into()), Ok(vec![]), Ok(vec![]), Ok(vec![]));
    assert!(r.sources.is_empty());
    assert_eq!(r.errors, vec!["system logs: e".to_string()]);
}

#[test]
fn host_extraction_edges() {
    let t = SshTarget { args: vec!["-i".into(), "key".into(), "-v".into(), "user@h".into()] };
    assert_eq!(t.host(), "user@h");
    let t = SshTarget { args: vec!["-p".into(), "22".into()] };
    assert_eq!(t.host(), "-p 22");
    let t = SshTarget { args: vec!["-p".into()] };
    assert_eq!(t.host(), "-p");
    assert_eq!(t.display(), "-p");
    let t = SshTarget { args: vec![] };
    assert_eq!(t.host(), "");
}

#[test]
fn level_colors() {
    assert_eq!(log_level_color("ERROR: x"), LevelColor::Red);
    assert_eq!(log_level_color("kernel PANIC"), LevelColor::Red);
    assert_eq!(log_level_color("Warning: y"), LevelColor::Yellow);
    assert_eq!(log_level_color("INFO ok"), LevelColor::Cyan);
    assert_eq!(log_level_color("Debug"), LevelColor::Gray);
    assert_eq!(log_level_color("TRACE"), LevelColor::DarkGray);
    assert_eq!(log_level_color("hello"), LevelColor::White);
}

#[test]
fn viewport_keeps_current_line_centered() {
    assert_eq!(viewport_offset(&[0, 1, 2, 3, 4, 5, 6, 7, 8, 9], 8, 6), 5);
    assert_eq!(viewport_offset(&[0, 1, 2], 1, 10), 0);
    assert_eq!(viewport_offset(&[0, 2, 4], 3, 2), 1);
    assert_eq!(viewport_offset(&[], 3, 2), 0);
}

#[test]
fn defaults() {
    let c = Config::default();
    assert_eq!(c.ssh_command, "ssh");
    assert_eq!(c.max_log_lines, 10_000);
    assert_eq!(c.discovery_timeout, 10);
    assert!(c.extra_paths.is_empty());
    assert_eq!(default_ssh_command(), "ssh");
    assert_eq!(default_max_log_lines(), 10_000);
    assert_eq!(default_discovery_timeout(), 10);
}

#[test]
fn discovery_updates_the_status() {
    let rt = tokio::runtime::Runtime::new().unwrap();
    let mut app = app_with(vec![], &rt);
    assert_eq!(app.message.as_deref(), Some("Press 'r' to load logs"));
    app.begin_discovery();
    assert!(app.loading);
    assert_eq!(app.message.as_deref(), Some("Loading logs..."));
    app.selected_index = 4;
    app.apply_discovery(collect_discovery(Ok(vec![file("/a"), file("/b")]), Ok(vec![]), Ok(vec![]), Ok(vec![])));
    assert_eq!(app.message.as_deref(), Some("Found 2 logs"));
    assert_eq!(app.selected_index, 0);
    assert_eq!(app.filtered_indices, vec![0, 1]);
    app.apply_discovery(collect_discovery(Ok(vec![]), Ok(vec![]), Ok(vec![]), Ok(vec![])));
    assert_eq!(app.message.as_deref(), Some("No logs found."));
}

#[test]
fn stream_errors_reach_the_status_line() {
    let rt = tokio::runtime::Runtime::new().unwrap();
    let mut app = app_with(vec![file("/var/log/x")], &rt);
    let (tx, rx) = tokio::sync::mpsc::unbounded_channel();
    app.open_viewer(file("/var/log/x"), rx);
    assert_eq!(app.screen, Screen::Viewer);
    app.update_stream();
    assert!(app.viewer.as_ref().unwrap().buffer.is_empty());
    for l in ["one", "STDERR:boom", "two"] {
        tx.send(l.to_string()).unwrap();
    }
    app.update_stream();
    let v = app.viewer.as_ref().unwrap();
    assert_eq!(lines(v), vec!["one", "two"]);
    assert!(v.error.is_none());
    assert_eq!(app.message.as_deref(), Some("SSH error: boom"));
    app.close_viewer();
    assert!(app.viewer.is_none());
    assert_eq!(app.screen, Screen::Picker);
}

#[test]
fn saving_names_and_contents() {
    let mut v = viewer(10);
    v.source = file("/var/log/a b:c");
    assert_eq!(v.save_name("20240101-120000"), "lview-_var_log_a_b_c-20240101-120000");
    assert_eq!(v.buffer_text(), "");
    v.push_line("x".into());
    v.push_line("y".into());
    assert_eq!(v.buffer_text(), "x\ny");
}

#[test]
fn key_bindings() {
    let k = KeyInput { key: Key::Char('d'), ctrl: true };
    assert_eq!(command_for(Screen::Viewer, true, k), Command::ScrollDown(10));
    let k = KeyInput { key: Key::Char('d'), ctrl: false };
    assert_eq!(command_for(Screen::Viewer, true, k), Command::Ignore);
    let k = KeyInput { key: Key::Char('q'), ctrl: false };
    assert_eq!(command_for(Screen::Picker, false, k), Command::Quit);
    assert_eq!(command_for(Screen::Viewer, true, k), Command::CloseViewer);
    assert_eq!(command_for(Screen::Search, true, k), Command::TypeChar('q'));
    assert_eq!(command_for(Screen::Viewer, false, k), Command::BackToPicker);
}

#[test]
fn handling_keys() {
    let rt = tokio::runtime::Runtime::new().unwrap();
    let mut app = app_with(vec![file("/var/log/syslog"), file("/opt/app/app.log")], &rt);
    assert_eq!(handle_event(&mut app, press('j')), Action::Continue);
    assert_eq!(app.selected_index, 1);
    assert_eq!(handle_event(&mut app, press_key(Key::Enter)), Action::OpenSelected);
    assert_eq!(handle_event(&mut app, press('r')), Action::Continue);
    assert!(app.loading);
    app.loading = false;
    assert_eq!(handle_event(&mut app, InputEvent::Other), Action::Continue);
    handle_event(&mut app, press('/'));
    assert_eq!(app.screen, Screen::PickerSearch);
    for c in "syslog".chars() {
        handle_event(&mut app, press(c));
    }
    assert_eq!(app.current_filter_query(), "syslog");
    assert_eq!(app.filtered_indices, vec![0]);
    handle_event(&mut app, press_key(Key::Backspace));
    assert_eq!(app.picker_filter, "syslo");
    handle_event(&mut app, press_key(Key::Enter));
    assert_eq!(app.screen, Screen::Picker);
    assert_eq!(app.current_filter_query(), "");
    assert_eq!(handle_event(&mut app, press('q')), Action::Quit);
}

#[test]
fn handling_viewer_keys() {
    let rt = tokio::runtime::Runtime::new().unwrap();
    let mut app = app_with(vec![file("/var/log/syslog")], &rt);
    let (tx, rx) = tokio::sync::mpsc::unbounded_channel();
    app.open_viewer(file("/var/log/syslog"), rx);
    handle_event(&mut app, press('/'));
    assert_eq!(app.screen, Screen::Search);
    handle_event(&mut app, press('e'));
    assert_eq!(app.viewer.as_ref().unwrap().search.query, "e");
    handle_event(&mut app, press_key(Key::Esc));
    assert_eq!(app.screen, Screen::Viewer);
    assert_eq!(app.viewer.as_ref().unwrap().search.query, "");
    handle_event(&mut app, press('n'));
    for l in ["err a", "ok", "err b"] {
        tx.send(l.to_string()).unwrap();
    }
    app.update_stream();
    handle_event(&mut app, press('g'));
    assert_eq!(app.viewer.as_ref().unwrap().scroll, 0);
    handle_event(&mut app, press('j'));
    assert_eq!(app.viewer.as_ref().unwrap().scroll, 1);
    handle_event(&mut app, press('/'));
    for c in "err".chars() {
        handle_event(&mut app, press(c));
    }
    handle_event(&mut app, press_key(Key::Enter));
    assert_eq!(app.viewer.as_ref().unwrap().scroll, 2);
    handle_event(&mut app, press('n'));
    assert_eq!(app.viewer.as_ref().unwrap().scroll, 0);
    handle_event(&mut app, press('N'));
    assert_eq!(app.viewer.as_ref().unwrap().scroll, 2);
    handle_event(&mut app, press(' '));
    assert!(app.viewer.as_ref().unwrap().live);
    assert_eq!(handle_event(&mut app, press('s')), Action::SaveBuffer);
    handle_event(&mut app, press('q'));
    assert_eq!(app.screen, Screen::Picker);
    assert!(app.viewer.is_none());
}

#[test]
fn status_messages() {
    assert_eq!(open_failed_message("no such file"), "Failed to open log: no such file");
    assert_eq!(saved_message("/tmp/x"), "Saved to /tmp/x");
}

#[test]
fn ssh_arguments() {
    let s = SshSession::new("ssh".into(), SshTarget { args: vec!["-p22".into(), "root@h".into()] });
    assert_eq!(
        s.remote_args("uptime"),
        vec!["-o", "BatchMode=yes", "-o", "StrictHostKeyChecking=accept-new", "-p22", "root@h", "--", "uptime"]
    );
}

#[test]
fn status_texts() {
    let rt = tokio::runtime::Runtime::new().unwrap();
    let session = SshSession::new("ssh".into(), SshTarget { args: vec!["-p".into(), "22".into(), "root@h".into()] });
    let mut app = App::new(session, Config::default(), rt.handle().clone());
    assert_eq!(picker_status(&app), "root@h | Press 'r' to load logs");
    app.message = None;
    assert_eq!(picker_status(&app), "root@h | j/k: move | Enter: open | /: filter | r: reload | q: quit");
    app.loading = true;
    assert_eq!(picker_status(&app), "Loading...");
    assert_eq!(list_title(1, 12), " Logs (1/12) ");
    assert_eq!(list_entry(&file("/var/log/syslog")), "[system] syslog (system)");
    assert_eq!(live_label(true), "LIVE");
    assert_eq!(live_label(false), "PAUSED");
    assert!(viewer_status(3, 2).starts_with(" | lines: 3 | scroll: 2 | j/k: scroll"));
}

/// How a POSIX shell reads single and double quotes in a word.
fn read_quoted(word: &str) -> Option<String> {
    let mut out = String::new();
    let mut quote: Option<char> = None;
    for c in word.chars() {
        match quote {
            None if c == '\'' || c == '"' => quote = Some(c),
            Some(q) if c == q => quote = None,
            _ => out.push(c),
        }
    }
    if quote.is_none() { Some(out) } else { None }
}

#[test]
fn quoted_words_read_back() {
    for s in ["a b", "it's", "'", "\"", "back\\slash", "x' y\"z", "''"] {
        assert_eq!(read_quoted(&shell_escape(s)).as_deref(), Some(s));
    }
}

#[test]
fn sort_keeps_order_of_equal_keys() {
    let a = LogSource::Docker { container: "a".into(), image: "b) (docker: c".into() };
    let b = LogSource::Docker { container: "a (docker: b)".into(), image: "c".into() };
    assert_eq!(a.sort_key(), b.sort_key());
    let j = LogSource::Journal { unit: "z.service".into() };
    assert_eq!(sort_sources(&vec![j.clone(), a.clone(), b.clone()]), vec![a.clone(), b.clone(), j.clone()]);
    assert_eq!(sort_sources(&vec![b.clone(), j.clone(), a.clone()]), vec![b.clone(), a.clone(), j.clone()]);
    assert_eq!(dedup_sources(&vec![a.clone(), a.clone(), b.clone(), a.clone()]), vec![a.clone(), b, a]);
}
