//! Error type of the quay application.
//!
//! Errors of the file system, the file watcher and the sockets are held by
//! their texts.

use vstd::prelude::*;
use vstd::string::*;

verus! {

/// Top-level error type for the quay application.
///
/// Every variant may carry a hint for the user.
#[derive(Debug)]
pub enum WatchdError {
    /// Reading or writing failed.
    Io(String, Option<String>),
    /// The file watcher failed.
    Notify(String, Option<String>),
    /// A WebSocket failed.
    WebSocket(String, Option<String>),
    /// The config file cannot be understood.
    ConfigParse { path: String, reason: String, user_message: Option<String> },
    /// A glob pattern cannot be understood.
    InvalidGlob { pattern: String, reason: String, user_message: Option<String> },
    /// An address cannot be bound to.
    Bind { addr: String, source: String, user_message: Option<String> },
    /// A command cannot be run.
    CommandExec { cmd: String, reason: String, user_message: Option<String> },
    /// The control socket cannot be reached.
    ControlConnect { addr: String, source: String, user_message: Option<String> },
}

/// The result of something that may fail with a [`WatchdError`].
pub type WatchdResult<T> = core::result::Result<T, WatchdError>;

impl WatchdError {
    /// The technical cause in words.
    pub open spec fn message_text(&self) -> Seq<char> {
        match *self {
            WatchdError::Io(e, _) => "I/O error: "@ + e@,
            WatchdError::Notify(e, _) => "file watcher error: "@ + e@,
            WatchdError::WebSocket(e, _) => "WebSocket error: "@ + e@,
            WatchdError::ConfigParse { path, reason, user_message } =>
                "failed to parse config at "@ + path@ + ": "@ + reason@,
            WatchdError::InvalidGlob { pattern, reason, user_message } =>
                "invalid glob pattern '"@ + pattern@ + "': "@ + reason@,
            WatchdError::Bind { addr, source, user_message } => "failed to bind to "@ + addr@
                + ": "@ + source@,
            WatchdError::CommandExec { cmd, reason, user_message } =>
                "failed to execute command '"@ + cmd@ + "': "@ + reason@,
            WatchdError::ControlConnect { addr, source, user_message } =>
                "failed to connect to control socket at "@ + addr@ + ": "@ + source@,
        }
    }

    /// The hint for the user.
    pub open spec fn hint(&self) -> Option<String> {
        match *self {
            WatchdError::Io(_, m) => m,
            WatchdError::Notify(_, m) => m,
            WatchdError::WebSocket(_, m) => m,
            WatchdError::ConfigParse { path, reason, user_message } => user_message,
            WatchdError::InvalidGlob { pattern, reason, user_message } => user_message,
            WatchdError::Bind { addr, source, user_message } => user_message,
            WatchdError::CommandExec { cmd, reason, user_message } => user_message,
            WatchdError::ControlConnect { addr, source, user_message } => user_message,
        }
    }

    /// The optional user-facing, actionable message attached to this error.
    pub fn user_message(&self) -> (r: Option<&str>)
        ensures
            crate::control::slice_text(r) == crate::config::opt_text(self.hint()),
    {
        let hint: &Option<String> = match self {
            WatchdError::Io(_, m) => m,
            WatchdError::Notify(_, m) => m,
            WatchdError::WebSocket(_, m) => m,
            WatchdError::ConfigParse { path: _, reason: _, user_message } => user_message,
            WatchdError::InvalidGlob { pattern: _, reason: _, user_message } => user_message,
            WatchdError::Bind { addr: _, source: _, user_message } => user_message,
            WatchdError::CommandExec { cmd: _, reason: _, user_message } => user_message,
            WatchdError::ControlConnect { addr: _, source: _, user_message } => user_message,
        };
        match hint {
            Some(m) => Some(m.as_str()),
            None => None,
        }
    }

    /// The technical cause in words.
    pub fn message(&self) -> (r: String)
        ensures
            r@ == self.message_text(),
    {
        match self {
            WatchdError::Io(e, _) => joined("I/O error: ", e.as_str()),
            WatchdError::Notify(e, _) => joined("file watcher error: ", e.as_str()),
            WatchdError::WebSocket(e, _) => joined("WebSocket error: ", e.as_str()),
            WatchdError::ConfigParse { path, reason, user_message: _ } => {
                let head = joined("failed to parse config at ", path.as_str());
                joined(joined(head.as_str(), ": ").as_str(), reason.as_str())
            },
            WatchdError::InvalidGlob { pattern, reason, user_message: _ } => {
                let head = joined("invalid glob pattern '", pattern.as_str());
                joined(joined(head.as_str(), "': ").as_str(), reason.as_str())
            },
            WatchdError::Bind { addr, source, user_message: _ } => {
                let head = joined("failed to bind to ", addr.as_str());
                joined(joined(head.as_str(), ": ").as_str(), source.as_str())
            },
            WatchdError::CommandExec { cmd, reason, user_message: _ } => {
                let head = joined("failed to execute command '", cmd.as_str());
                joined(joined(head.as_str(), "': ").as_str(), reason.as_str())
            },
            WatchdError::ControlConnect { addr, source, user_message: _ } => {
                let head = joined("failed to connect to control socket at ", addr.as_str());
                joined(joined(head.as_str(), ": ").as_str(), source.as_str())
            },
        }
    }
}

/// One text after another.
fn joined(a: &str, b: &str) -> (r: String)
    ensures
        r@ == a@ + b@,
{
    let mut r: String = a.to_owned();
    r.append(b);
    r
}

/// Every error names its cause, with all that it knows about it.
pub proof fn law_error_names_its_cause(
    what: String,
    why: String,
    hint: Option<String>,
)
    ensures
        WatchdError::Io(why, hint).message_text() == "I/O error: "@ + why@,
        WatchdError::Notify(why, hint).message_text() == "file watcher error: "@ + why@,
        WatchdError::WebSocket(why, hint).message_text() == "WebSocket error: "@ + why@,
        (WatchdError::ConfigParse { path: what, reason: why, user_message: hint }).message_text()
            == "failed to parse config at "@ + what@ + ": "@ + why@,
        (WatchdError::InvalidGlob {
            pattern: what,
            reason: why,
            user_message: hint,
        }).message_text() == "invalid glob pattern '"@ + what@ + "': "@ + why@,
        (WatchdError::Bind { addr: what, source: why, user_message: hint }).message_text()
            == "failed to bind to "@ + what@ + ": "@ + why@,
        (WatchdError::CommandExec { cmd: what, reason: why, user_message: hint }).message_text()
            == "failed to execute command '"@ + what@ + "': "@ + why@,
        (WatchdError::ControlConnect {
            addr: what,
            source: why,
            user_message: hint,
        }).message_text() == "failed to connect to control socket at "@ + what@ + ": "@ + why@,
{
}

/// Every error keeps the hint that it was given.
pub proof fn law_error_keeps_its_hint(what: String, why: String, hint: Option<String>)
    ensures
        WatchdError::Io(why, hint).hint() == hint,
        WatchdError::Notify(why, hint).hint() == hint,
        WatchdError::WebSocket(why, hint).hint() == hint,
        (WatchdError::ConfigParse { path: what, reason: why, user_message: hint }).hint() == hint,
        (WatchdError::InvalidGlob { pattern: what, reason: why, user_message: hint }).hint()
            == hint,
        (WatchdError::Bind { addr: what, source: why, user_message: hint }).hint() == hint,
        (WatchdError::CommandExec { cmd: what, reason: why, user_message: hint }).hint() == hint,
        (WatchdError::ControlConnect { addr: what, source: why, user_message: hint }).hint()
            == hint,
{
}

} // verus!
