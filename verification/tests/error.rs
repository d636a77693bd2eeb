//! Tests of the error type.

use quay::error::{WatchdError, WatchdResult};

#[test]
fn io_error_display() {
    let err = WatchdError::Io("file gone".to_string(), None);
    let msg = err.message();
    assert!(msg.contains("I/O error"), "got: {msg}");
    assert!(msg.contains("file gone"), "got: {msg}");
}

#[test]
fn notify_error_display() {
    let inner = notify::Error::generic("watcher exploded");
    let err = WatchdError::Notify(
        inner.to_string(),
        Some("Check file watcher configuration and supported events.".to_string()),
    );
    let msg = err.message();
    assert!(msg.contains("file watcher error"), "got: {msg}");
    assert!(msg.contains("watcher exploded"), "got: {msg}");
    assert_eq!(
        err.user_message(),
        Some("Check file watcher configuration and supported events.")
    );
}

#[test]
fn websocket_error_display() {
    let inner = tokio_tungstenite::tungstenite::Error::ConnectionClosed;
    let err = WatchdError::WebSocket(
        inner.to_string(),
        Some("Check WebSocket server address and port.".to_string()),
    );
    let msg = err.message();
    assert!(msg.contains("WebSocket error"), "got: {msg}");
}

#[test]
fn config_parse_display() {
    let err = WatchdError::ConfigParse {
        path: "/tmp/quay.yaml".to_string(),
        reason: "invalid YAML syntax".to_string(),
        user_message: None,
    };
    let msg = err.message();
    assert!(msg.contains("failed to parse config"), "got: {msg}");
    assert!(msg.contains("quay.yaml"), "got: {msg}");
    assert!(msg.contains("invalid YAML syntax"), "got: {msg}");
}

#[test]
fn invalid_glob_display() {
    let err = WatchdError::InvalidGlob {
        pattern: "[unclosed".to_string(),
        reason: "missing closing bracket".to_string(),
        user_message: None,
    };
    let msg = err.message();
    assert!(msg.contains("invalid glob pattern"), "got: {msg}");
    assert!(msg.contains("[unclosed"), "got: {msg}");
    assert!(msg.contains("missing closing bracket"), "got: {msg}");
}

#[test]
fn bind_error_display() {
    let err = WatchdError::Bind {
        addr: "127.0.0.1:3012".to_string(),
        source: "port taken".to_string(),
        user_message: None,
    };
    let msg = err.message();
    assert!(msg.contains("failed to bind"), "got: {msg}");
    assert!(msg.contains("127.0.0.1:3012"), "got: {msg}");
    assert!(msg.contains("port taken"), "got: {msg}");
}

#[test]
fn command_exec_display() {
    let err = WatchdError::CommandExec {
        cmd: "npm run build".to_string(),
        reason: "process exited with code 1".to_string(),
        user_message: None,
    };
    let msg = err.message();
    assert!(msg.contains("failed to execute command"), "got: {msg}");
    assert!(msg.contains("npm run build"), "got: {msg}");
    assert!(msg.contains("process exited with code 1"), "got: {msg}");
}

#[test]
fn control_connect_display() {
    let err = WatchdError::ControlConnect {
        addr: "127.0.0.1:3013".to_string(),
        source: "connection refused".to_string(),
        user_message: None,
    };
    let msg = err.message();
    assert!(
        msg.contains("failed to connect to control socket"),
        "got: {msg}"
    );
    assert!(msg.contains("127.0.0.1:3013"), "got: {msg}");
    assert!(msg.contains("connection refused"), "got: {msg}");
}

fn returns_ok() -> WatchdResult<i32> {
    Ok(42)
}

#[test]
fn result_alias_ok() {
    let r = returns_ok();
    assert_eq!(r.unwrap(), 42);
}

#[test]
fn result_alias_err() {
    let r: WatchdResult<i32> = Err(WatchdError::CommandExec {
        cmd: "test".to_string(),
        reason: "fail".to_string(),
        user_message: None,
    });
    assert!(r.is_err());
}

fn variants(user_message: Option<String>) -> Vec<WatchdError> {
    let m = || user_message.clone();
    vec![
        WatchdError::Io("x".into(), m()),
        WatchdError::Notify("x".into(), m()),
        WatchdError::WebSocket("x".into(), m()),
        WatchdError::ConfigParse {
            path: "a".into(),
            reason: "b".into(),
            user_message: m(),
        },
        WatchdError::InvalidGlob {
            pattern: "c".into(),
            reason: "d".into(),
            user_message: m(),
        },
        WatchdError::Bind {
            addr: "e".into(),
            source: "f".into(),
            user_message: m(),
        },
        WatchdError::CommandExec {
            cmd: "g".into(),
            reason: "h".into(),
            user_message: m(),
        },
        WatchdError::ControlConnect {
            addr: "i".into(),
            source: "j".into(),
            user_message: m(),
        },
    ]
}

#[test]
fn all_variants_implement_debug() {
    for v in &variants(None) {
        let dbg = format!("{:?}", v);
        assert!(!dbg.is_empty());
    }
}

fn assert_send_sync<T: Send + Sync>() {}

#[test]
fn error_is_send_and_sync() {
    assert_send_sync::<WatchdError>();
}

#[test]
fn every_variant_carries_its_hint() {
    for v in &variants(None) {
        assert_eq!(v.user_message(), None);
    }
    for v in &variants(Some("try again".to_string())) {
        assert_eq!(v.user_message(), Some("try again"));
    }
}

#[test]
fn messages_of_the_error_variants() {
    let texts: Vec<String> = variants(None).iter().map(|v| v.message()).collect();
    assert_eq!(
        texts,
        vec![
            "I/O error: x",
            "file watcher error: x",
            "WebSocket error: x",
            "failed to parse config at a: b",
            "invalid glob pattern 'c': d",
            "failed to bind to e: f",
            "failed to execute command 'g': h",
            "failed to connect to control socket at i: j",
        ]
    );
}
