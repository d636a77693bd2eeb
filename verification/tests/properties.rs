//! Tests of properties that span several functions, and of edge cases.

use quay::command::{
    escape_for, fill_in, next_step, shell_escape_for_cmd, ChildState, CommandStep, Shell,
    NO_EXIT_CODE,
};
use quay::diff::{compute_diff, readable, render_changes, LineChange};
use quay::filter::{normalize_path, relativize_to_root, PathFilter};
use quay::kv::{timestamp_of, DiffStore};
use quay::path::{extension_of, same_path, strip_prefix};
use quay::server::{
    accept_step, admitted_after, client_step, forward_step, metrics_head, new_status_map,
    set_status, AcceptEvent, AcceptStep, ClientEvent, ClientPhase, ClientStep, ForwardEvent,
    ForwardStep, StatusMap,
};
use quay::validate::{
    bind_addr_warnings, cmd_timeout_warnings, debounce_warnings, validate_auth_token,
    validate_bind_addr, validate_bind_exposure, validate_diff_flags, validate_max_connections,
    validate_tls, warn_port_issues, WARN_ALL_INTERFACES, WARN_DEBOUNCE_LONG, WARN_DEBOUNCE_SHORT,
    WARN_DIFF_DISABLED, WARN_DIFF_TINY, WARN_PORT_LAST, WARN_PORT_PRIVILEGED, WARN_PORT_ZERO,
    WARN_TIMEOUT_LONG, WARN_TIMEOUT_SHORT, WARN_TIMEOUT_ZERO,
};
use quay::watcher::shell_escape;

// -- Diffs -------------------------------------------------------------------

#[test]
fn diff_has_exact_text() {
    let (diff, binary) = compute_diff(Some(b"a\nb\nc\n"), b"a\nx\nc\n");
    assert_eq!(diff, "  a\n- b\n+ x\n  c\n");
    assert!(!binary);
}

#[test]
fn diff_of_a_line_without_an_end() {
    let (diff, _) = compute_diff(Some(b"a"), b"b");
    assert_eq!(diff, "- a\n+ b\n");
}

#[test]
fn same_text_has_an_empty_diff() {
    assert_eq!(compute_diff(Some(b"a\nb\n"), b"a\nb\n"), ("".to_string(), false));
    let mut store = DiffStore::new(5, 5, 1024);
    store.record_change_at("f", b"x\n", 1);
    let entry = store.record_change_at("f", b"x\n", 2).unwrap();
    assert_eq!(entry.diff, "");
    assert_eq!(entry.timestamp, 2);
}

#[test]
fn content_that_is_not_utf8_is_binary() {
    let placeholder = "<binary file changed>";
    for bytes in [&b"\xff\xfe"[..], b"a\xff\n", b"\xc3", b"\xed\xa0\x80"] {
        assert_eq!(compute_diff(None, bytes), (placeholder.to_string(), true));
        assert_eq!(compute_diff(Some(bytes), b"text"), (placeholder.to_string(), true));
        assert_eq!(readable(bytes), None);
    }
    assert_eq!(readable("h\u{e9}".as_bytes()), Some("h\u{e9}"));
    assert_eq!(readable(b"a\0b"), None);

    let mut store = DiffStore::new(5, 10, 1024);
    let entry = store.record_change("x.dat", &[0xff, 0xfe]).unwrap();
    assert!(entry.binary);
    assert_eq!(entry.diff, placeholder);
    // The next version is text, but the one before is not.
    assert!(store.record_change("x.dat", b"text").unwrap().binary);
    assert!(!store.record_change("x.dat", b"text\n").unwrap().binary);
}

#[test]
fn first_version_is_shown_line_by_line() {
    let (diff, binary) = compute_diff(None, b"a\r\n\nb\rc");
    assert_eq!(diff, "+ a\r\n+ \n+ b\r\n+ c\n");
    assert!(!binary);
    assert_eq!(compute_diff(None, b"").0, "");
}

#[test]
fn diff_reads_back_to_both_versions() {
    let old = "one\ntwo\r\n\nfour";
    let new = "zero\ntwo\r\nfour\n+ five\n";
    let (diff, _) = compute_diff(Some(old.as_bytes()), new.as_bytes());
    let side = |hidden: char| -> String {
        diff.split_inclusive('\n')
            .filter(|l| !l.starts_with(hidden))
            .map(|l| &l[2..])
            .collect()
    };
    assert_eq!(side('+'), format!("{old}\n"));
    assert_eq!(side('-'), new);
}

#[test]
fn clock_before_the_epoch_counts_as_being_at_it() {
    assert_eq!(timestamp_of(None), 0);
    assert_eq!(timestamp_of(Some(7)), 7);
    let mut store = DiffStore::new(1, 1, 8);
    assert!(store.record_change("a", b"x").unwrap().timestamp > 1_000_000_000);
}

#[test]
fn summary_counts_what_is_kept() {
    let mut store = DiffStore::new(2, 3, 0);
    for i in 0..5u64 {
        store.record_change_at("a", b"x", i);
        store.record_change_at("b", b"", i);
    }
    store.seed_snapshot("seeded", b"s");
    let s = store.summary();
    assert_eq!((s.tracked_files, s.total_diffs), (2, 4));
    assert_eq!((s.capacity, s.max_keys, s.max_file_size), (2, 3, 1));
    store.remove("a");
    assert_eq!(store.summary().total_diffs, 2);
}

#[test]
fn changes_are_rendered_in_order() {
    let changes = vec![
        LineChange::Equal("same\n".to_string()),
        LineChange::Delete("gone".to_string()),
        LineChange::Insert("new\n".to_string()),
    ];
    assert_eq!(render_changes(&changes), "  same\n- gone\n+ new\n");
}

// -- The store ---------------------------------------------------------------

#[test]
fn recorded_change_is_the_latest() {
    let mut store = DiffStore::new(2, 2, 1024);
    for i in 0..5u64 {
        let content = format!("v{i}\n");
        store.record_change_at("f", content.as_bytes(), i);
        assert_eq!(store.get_latest("f").unwrap().timestamp, i);
    }
    let times: Vec<u64> = store
        .get_history("f")
        .iter()
        .map(|e| e.timestamp)
        .collect();
    assert_eq!(times, vec![3, 4]);
}

#[test]
fn full_store_drops_the_path_that_was_tracked_first() {
    let mut store = DiffStore::new(2, 2, 1024);
    store.record_change_at("a", b"1\n", 1);
    store.record_change_at("b", b"1\n", 2);
    store.record_change_at("a", b"2\n", 3);
    store.record_change_at("c", b"1\n", 4);
    assert_eq!(store.list_keys(), vec!["b".to_string(), "c".to_string()]);
    assert!(store.snapshot("a").is_none());
    assert_eq!(store.summary().tracked_files, 2);
}

#[test]
fn content_over_the_limit_is_not_kept() {
    let mut store = DiffStore::new(2, 2, 4);
    store.record_change_at("f", b"abc\n", 1);
    let entry = store.record_change_at("f", b"abcde", 2).unwrap();
    assert!(entry.truncated);
    assert_eq!(entry.old_size, 4);
    assert_eq!(entry.new_size, 5);
    assert_eq!(entry.diff, "<file too large: 5 bytes, limit 4 bytes>");
    assert_eq!(store.snapshot("f").unwrap(), b"abc\n");
}

#[test]
fn file_is_read_only_if_it_may_be_small_enough() {
    let store = DiffStore::new(2, 2, 4);
    assert!(store.needs_read(Some(4)));
    assert!(!store.needs_read(Some(5)));
    assert!(store.needs_read(None));
}

#[test]
fn entry_as_json() {
    let mut store = DiffStore::new(2, 2, 1024);
    let entry = store.record_change_at("f", b"x\n", 7).unwrap();
    let text = entry.to_json().to_string();
    assert_eq!(
        text,
        "{\"binary\":false,\"diff\":\"+ x\\n\",\"new_size\":2,\"old_size\":0,\"path\":\"f\",\"timestamp\":7,\"truncated\":false}"
    );
}

// -- Paths and filters -------------------------------------------------------

#[test]
fn paths_are_compared_by_components() {
    assert!(same_path("/a//b/./c/", "/a/b/c"));
    assert!(!same_path("/a/b", "a/b"));
    assert!(!same_path("/a/b", "/a/b/c"));
    assert_eq!(strip_prefix("/a/b/c", "/a"), Some("b/c".to_string()));
    assert_eq!(strip_prefix("/ab/c", "/a"), None);
    assert_eq!(strip_prefix("/a", "/a"), Some("".to_string()));
    assert_eq!(extension_of("dir.d/x.tar.GZ"), "GZ");
    assert_eq!(extension_of(".bashrc"), "");
    assert_eq!(extension_of("x."), "");
}

#[test]
fn stripped_path_continues_the_base() {
    let rest = strip_prefix("/srv/www/css/a.css", "/srv/www").unwrap();
    assert!(same_path(&format!("/srv/www/{rest}"), "/srv/www/css/a.css"));
    assert_eq!(relativize_to_root("/srv/www/css/a.css", "/srv/www"), rest);
    assert_eq!(relativize_to_root("/other/a.css", "/srv/www"), "/other/a.css");
}

#[test]
fn normalized_path_is_stable() {
    for p in ["a\\b", "./a", ".\\a\\b", "././a", "/a/b", ""] {
        let once = normalize_path(p);
        assert!(!once.contains('\\'));
        assert_eq!(normalize_path(&once), once);
    }
}

#[test]
fn exclusion_wins_over_inclusion() {
    let f = PathFilter::new(&["**/*.rs".to_string()], &["src/**".to_string()]);
    assert!(!f.is_allowed("src/main.rs"));
    assert!(f.is_allowed("lib/main.rs"));
    assert!(!f.is_allowed("lib/main.c"));
    assert!(PathFilter::new(&[], &[]).is_allowed("anything at all"));
}

// -- Commands ----------------------------------------------------------------

/// What a POSIX shell reads from a text of quoted parts and escaped characters.
fn shell_reads(text: &str) -> String {
    let mut out = String::new();
    let mut chars = text.chars();
    let mut quoted = false;
    while let Some(c) = chars.next() {
        match c {
            '\'' => quoted = !quoted,
            '\\' if !quoted => out.push(chars.next().unwrap()),
            _ => out.push(c),
        }
    }
    assert!(!quoted);
    out
}

#[test]
fn shell_reads_escaped_text_literally() {
    for s in ["", "a b", "it's", "''", "$(x) `y` \\ \" ; | &", "\n\t'"] {
        assert_eq!(shell_reads(&shell_escape(s)), s);
    }
}

#[test]
fn escaping_for_cmd() {
    assert_eq!(shell_escape_for_cmd("say \"hi\""), "\"say \"\"hi\"\"\"");
    assert_eq!(shell_escape_for_cmd("100%APPDATA%"), "\"100%%APPDATA%%\"");
}

#[test]
fn placeholder_becomes_the_escaped_path() {
    assert_eq!(fill_in(Shell::Sh, "run {path} {path}!", "a b"), "run 'a b' 'a b'!");
    assert_eq!(fill_in(Shell::Sh, "run", "a"), "run");
    // The path is not looked at for placeholders.
    assert_eq!(fill_in(Shell::Sh, "{path}", "{path}"), "'{path}'");
    assert_eq!(fill_in(Shell::Cmd, "run {path}", "a b%"), "run \"a b%%\"");
    assert_eq!(escape_for(Shell::Sh, "it's"), "'it'\\''s'");
    assert_eq!(escape_for(Shell::Cmd, "it's"), "\"it's\"");
}

#[test]
fn only_overdue_commands_are_killed() {
    let running = |elapsed| ChildState::Running { elapsed };
    assert_eq!(next_step(running(10), Some(10)), CommandStep::PollAgain);
    assert_eq!(next_step(running(11), Some(10)), CommandStep::Kill);
    assert_eq!(next_step(running(u128::MAX), None), CommandStep::PollAgain);
    let done = ChildState::Exited {
        success: true,
        code: Some(0),
    };
    assert_eq!(next_step(done, Some(0)), CommandStep::Succeeded);
    let failed = |code| ChildState::Exited {
        success: false,
        code,
    };
    assert_eq!(
        next_step(failed(Some(3)), None),
        CommandStep::Failed { code: 3 }
    );
    assert_eq!(
        next_step(failed(None), None),
        CommandStep::Failed { code: NO_EXIT_CODE }
    );
    assert_eq!(next_step(ChildState::Unknown, None), CommandStep::GiveUp);
}

// -- The server --------------------------------------------------------------

#[test]
fn set_state_is_read_back() {
    let mut m: StatusMap = new_status_map(vec!["a".to_string()]);
    assert_eq!(m.get("a").unwrap(), "up to date");
    set_status(&mut m, "a", "reloading");
    set_status(&mut m, "b", "error");
    assert_eq!(m.get("a").unwrap(), "reloading");
    assert_eq!(m.get("b").unwrap(), "error");
    assert_eq!(m.name_at(1), "b");
    m.reset();
    assert_eq!(m.state_at(1), "up to date");
}

#[test]
fn clients_are_refused_at_the_limit() {
    let accepted = AcceptEvent::Accepted;
    assert_eq!(accept_step(accepted, 1, Some(2)), (AcceptStep::Serve, 2));
    assert_eq!(accept_step(accepted, 2, Some(2)), (AcceptStep::Refuse, 2));
    assert_eq!(accept_step(accepted, 7, None), (AcceptStep::Serve, 8));
    assert_eq!(
        accept_step(accepted, usize::MAX, None),
        (AcceptStep::Refuse, usize::MAX)
    );
    assert_eq!(
        accept_step(AcceptEvent::Failed, 3, None),
        (AcceptStep::Backoff, 3)
    );
    assert_eq!(
        accept_step(AcceptEvent::Shutdown, 3, None),
        (AcceptStep::Stop, 3)
    );
}

#[test]
fn clients_in_their_handshake_count_for_the_limit() {
    let (step, admitted) = accept_step(AcceptEvent::Accepted, 0, Some(1));
    assert_eq!((step, admitted), (AcceptStep::Serve, 1));
    // The first client has not shaken hands yet.
    let (step, admitted) = accept_step(AcceptEvent::Accepted, admitted, Some(1));
    assert_eq!((step, admitted), (AcceptStep::Refuse, 1));
    let (phase, step) = client_step(ClientPhase::Handshake, ClientEvent::HandshakeDone);
    let admitted = admitted_after(admitted, step);
    assert_eq!(admitted, 1);
    let (_, step) = client_step(phase, ClientEvent::Ended);
    let admitted = admitted_after(admitted, step);
    assert_eq!(admitted, 0);
    assert_eq!(
        accept_step(AcceptEvent::Accepted, admitted, Some(1)),
        (AcceptStep::Serve, 1)
    );
    let (_, step) = client_step(ClientPhase::Handshake, ClientEvent::HandshakeFailed);
    assert_eq!(admitted_after(1, step), 0);
    assert_eq!(admitted_after(0, ClientStep::Drop), 0);
}

#[test]
fn client_is_counted_while_connected() {
    let (phase, step) = client_step(ClientPhase::Handshake, ClientEvent::HandshakeDone);
    assert_eq!((phase, step), (ClientPhase::Connected, ClientStep::Open));
    let (phase, step) = client_step(phase, ClientEvent::Frame);
    assert_eq!((phase, step), (ClientPhase::Connected, ClientStep::Continue));
    let (phase, step) = client_step(phase, ClientEvent::Ended);
    assert_eq!((phase, step), (ClientPhase::Gone, ClientStep::Close));
    let (phase, step) = client_step(ClientPhase::Handshake, ClientEvent::HandshakeFailed);
    assert_eq!((phase, step), (ClientPhase::Gone, ClientStep::Drop));
}

#[test]
fn messages_are_forwarded() {
    assert!(matches!(
        forward_step(ForwardEvent::Message("m".to_string())),
        ForwardStep::Send(text) if text == "m"
    ));
    assert!(matches!(
        forward_step(ForwardEvent::Lagged(3)),
        ForwardStep::Continue
    ));
    assert!(matches!(forward_step(ForwardEvent::Closed), ForwardStep::Stop));
}

#[test]
fn metrics_reply_has_exact_text() {
    assert_eq!(
        metrics_head("text/plain", 120),
        "HTTP/1.1 200 OK\r\nContent-Type: text/plain\r\nContent-Length: 120\r\nConnection: close\r\n\r\n"
    );
}

// -- Validation --------------------------------------------------------------

#[test]
fn refusals_have_exact_texts() {
    let err = |s: &str| Err(s.to_string());
    assert_eq!(validate_bind_addr(""), err("bind address must not be empty"));
    assert_eq!(
        validate_bind_addr("a b"),
        err("bind address 'a b' contains whitespace; expected an IP address or hostname")
    );
    assert_eq!(
        validate_bind_addr("a$b;c"),
        err("bind address 'a$b;c' contains invalid character ';'")
    );
    assert_eq!(validate_bind_addr("::"), Ok(()));
    assert_eq!(
        validate_bind_exposure("::", false),
        err("binding to all interfaces is not allowed unless expose_network=true")
    );
    assert_eq!(validate_bind_exposure("::", true), Ok(()));
    assert_eq!(
        validate_auth_token(&None),
        err("auth_token is required for secure operation")
    );
    assert_eq!(validate_auth_token(&Some("t".to_string())), Ok(()));
    assert_eq!(
        validate_tls(&Some("c".to_string()), &None),
        err("TLS certificate and key are required for secure operation")
    );
    assert_eq!(
        validate_tls(&Some("c".to_string()), &Some("k".to_string())),
        Ok(())
    );
    assert_eq!(
        validate_max_connections(Some(0)),
        err("max_connections must be greater than zero")
    );
    assert_eq!(validate_max_connections(Some(1)), Ok(()));
}

#[test]
fn warnings_at_their_bounds() {
    assert_eq!(bind_addr_warnings("0.0.0.0"), vec![WARN_ALL_INTERFACES]);
    assert!(bind_addr_warnings("127.0.0.1").is_empty());
    assert_eq!(warn_port_issues(0), vec![WARN_PORT_ZERO]);
    assert_eq!(warn_port_issues(1023), vec![WARN_PORT_PRIVILEGED]);
    assert!(warn_port_issues(1024).is_empty());
    assert_eq!(warn_port_issues(65535), vec![WARN_PORT_LAST]);
    assert_eq!(debounce_warnings(49), vec![WARN_DEBOUNCE_SHORT]);
    assert!(debounce_warnings(50).is_empty());
    assert!(debounce_warnings(10_000).is_empty());
    assert_eq!(debounce_warnings(10_001), vec![WARN_DEBOUNCE_LONG]);
    assert_eq!(cmd_timeout_warnings(Some(0)), vec![WARN_TIMEOUT_ZERO]);
    assert_eq!(cmd_timeout_warnings(Some(99)), vec![WARN_TIMEOUT_SHORT]);
    assert!(cmd_timeout_warnings(Some(600_000)).is_empty());
    assert_eq!(cmd_timeout_warnings(Some(600_001)), vec![WARN_TIMEOUT_LONG]);
    assert!(cmd_timeout_warnings(None).is_empty());
    assert_eq!(validate_diff_flags(false, 1), vec![WARN_DIFF_DISABLED]);
    assert_eq!(validate_diff_flags(true, 255), vec![WARN_DIFF_TINY]);
    assert!(validate_diff_flags(true, 256).is_empty());
}

#[test]
fn store_is_always_bounded() {
    let mut store = DiffStore::new(2, 3, 8);
    for round in 0..4u64 {
        for name in ["a", "b", "c", "d", "e"] {
            let content = vec![b'x'; 2 * round as usize + 4];
            store.record_change_at(name, &content, round);
            store.seed_snapshot("big", &content);
            store.record_change_from_disk_at("d", Some(99), None, round);
        }
        store.remove("d");
        let keys = store.list_keys();
        assert!(keys.len() <= 3);
        for (i, key) in keys.iter().enumerate() {
            assert!(!keys[..i].contains(key));
            let history = store.get_history(key);
            assert!((1..=2).contains(&history.len()));
            assert!(history.iter().all(|e| e.path == *key));
        }
        for name in ["a", "b", "c", "d", "e", "big"] {
            assert!(store.snapshot(name).map_or(true, |s| s.len() <= 8));
        }
    }
    store.clear();
    assert!(store.list_keys().is_empty());
    assert_eq!(store.capacity(), 2);
}

#[test]
fn every_diff_line_has_its_prefix() {
    let (diff, binary) = compute_diff(Some(b"a\nb\r\nlast"), b"a\nc\r\nend\n");
    assert!(!binary);
    for line in diff.lines() {
        let prefix = &line[..2];
        assert!(prefix == "  " || prefix == "+ " || prefix == "- ");
    }
    assert_eq!(compute_diff(Some(b"same"), b"same").0, "");
    assert_ne!(compute_diff(Some(b"same"), b"same\n").0, "");
}
