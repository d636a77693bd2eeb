//! The control socket: a JSON-over-TCP protocol for a running instance.
//!
//! Each connection sends one newline-terminated JSON command and receives one
//! newline-terminated JSON response.

use crate::json::{
    add_member, flag_value, json_parse, json_string, json_text, list_value, member, nested_within,
    new_members, number_value, object_value, parse_json, plain, text_member, text_of_member,
    text_value, value_model, JsonModel,
};
use crate::kv::{
    bounded, empty_store, entry_for, entry_json, latest, law_recorded_change_is_latest, recorded,
    summary_json, summary_of, DiffStore, EntryModel, StoreModel,
};
use crate::server::{names_agree, reset_states, up_to_date, StatusMap, StatusModel};
use crate::text::same_text;
use crate::watcher::{broadcast_reload, reload_model};
use vstd::prelude::*;
use vstd::string::*;
use vstd::utf8::{decode_utf8, encode_scalar, encode_utf8, valid_utf8};

verus! {

/// The longest request, in bytes.
pub const CONTROL_READ_MAX_BYTES: usize = 64 * 1024;

/// How long a client may take to send its request, in milliseconds.
pub const CONTROL_READ_TIMEOUT_MS: u64 = 5_000;

/// A message on one line.
pub open spec fn line_of(m: JsonModel) -> Seq<char> {
    json_text(m).push('\n')
}

/// Whether a text is one line of JSON with the given contents: it ends in its
/// only line break and reads back as them.
pub open spec fn is_reply(text: Seq<char>, m: JsonModel) -> bool {
    &&& text == line_of(m)
    &&& !text.drop_last().contains('\n')
    &&& json_parse(text.drop_last()) == Some(m)
}

/// The reply to a request that cannot be served.
pub open spec fn error_model(message: Seq<char>) -> JsonModel {
    JsonModel::Object(map!["error"@ => JsonModel::Text(message)])
}

/// The reply to a command that was carried out.
pub open spec fn ok_model() -> JsonModel {
    JsonModel::Object(map!["status"@ => JsonModel::Text("ok"@)])
}

/// The status of a config.
pub open spec fn config_model(name: Seq<char>, state: Seq<char>) -> JsonModel {
    JsonModel::Object(
        map!["name"@ => JsonModel::Text(name), "status"@ => JsonModel::Text(state)],
    )
}

/// The reply to `status`: the state of each config and the number of clients.
pub open spec fn status_model(m: StatusModel, connections: usize) -> JsonModel {
    JsonModel::Object(
        map![
            "configs"@ => JsonModel::List(
                Seq::new(m.names.len(), |i: int| config_model(m.names[i], m.states[m.names[i]])),
            ),
            "connections"@ => JsonModel::Number(connections as int),
        ],
    )
}

/// The text for a diff store that is not there.
pub open spec fn not_enabled() -> Seq<char> {
    "diff store is not enabled; start quay with --diff"@
}

/// The reply to `diff` for a path without a diff.
pub open spec fn no_diff_model(path: Seq<char>) -> JsonModel {
    JsonModel::Object(
        map!["error"@ => JsonModel::Text("no diff found"@), "path"@ => JsonModel::Text(path)],
    )
}

/// The reply to `diff`: the latest entry of the path.
pub open spec fn diff_model(store: Option<StoreModel>, path: Option<Seq<char>>) -> JsonModel {
    match store {
        None => error_model(not_enabled()),
        Some(m) => match path {
            None => error_model("missing 'path' field"@),
            Some(p) => match latest(m, p) {
                Some(entry) => entry_json(entry),
                None => no_diff_model(p),
            },
        },
    }
}

/// What is listed of a tracked file: its latest entry without the diff itself.
pub open spec fn file_model(e: EntryModel) -> JsonModel {
    JsonModel::Object(
        map![
            "path"@ => JsonModel::Text(e.path),
            "latest_diff_size"@ => JsonModel::Number(encode_utf8(e.diff).len() as usize as int),
            "old_size"@ => JsonModel::Number(e.old_size as int),
            "new_size"@ => JsonModel::Number(e.new_size as int),
            "binary"@ => JsonModel::Bool(e.binary),
            "truncated"@ => JsonModel::Bool(e.truncated),
        ],
    )
}

/// The files listed for a store, in the order in which they came in.
pub open spec fn files_model(m: StoreModel) -> Seq<JsonModel> {
    Seq::new(m.keys.len(), |i: int| file_model(latest(m, m.keys[i])->0))
}

/// The reply to `diffs`: a summary and the tracked files.
pub open spec fn diffs_model(store: Option<StoreModel>) -> JsonModel {
    match store {
        None => error_model(not_enabled()),
        Some(m) => JsonModel::Object(
            map![
                "summary"@ => summary_json(summary_of(m)),
                "files"@ => JsonModel::List(files_model(m)),
            ],
        ),
    }
}

/// The reply to `diff-clear`.
pub open spec fn diff_clear_model(store: Option<StoreModel>) -> JsonModel {
    match store {
        None => error_model(not_enabled()),
        Some(_) => ok_model(),
    }
}

/// An object is plain if its members are, one level further in.
proof fn lemma_object_is_nested(members: Map<Seq<char>, JsonModel>, depth: nat)
    requires
        depth > 0,
        forall|k: Seq<char>| #[trigger]
            members.contains_key(k) ==> nested_within(members[k], (depth - 1) as nat),
    ensures
        nested_within(JsonModel::Object(members), depth),
{
    assert forall|k: Seq<char>| members.contains_key(k) implies nested_within(
        #[trigger] members[k],
        (depth - 1) as nat,
    ) by {
        assert(members.contains_key(k));
    }
}

/// Prints a value on one line.
fn reply_line(v: serde_json::Value) -> (r: String)
    requires
        plain(value_model(v)),
    ensures
        is_reply(r@, value_model(v)),
{
    let mut r = json_string(&v);
    let ghost text = r@;
    r.push('\n');
    assert(r@.drop_last() =~= text);
    r
}

/// The reply with an error message.
fn error_reply(message: &str) -> (r: String)
    ensures
        is_reply(r@, error_model(message@)),
{
    let mut members = new_members();
    add_member(&mut members, "error", text_value(message));
    let v = object_value(members);
    assert(value_model(v) == error_model(message@));
    proof {
        lemma_object_is_nested(error_model(message@)->Object_0, 100);
    }
    reply_line(v)
}

/// The reply to a command that was carried out.
fn ok_reply() -> (r: String)
    ensures
        is_reply(r@, ok_model()),
{
    let mut members = new_members();
    add_member(&mut members, "status", text_value("ok"));
    let v = object_value(members);
    assert(value_model(v) == ok_model());
    proof {
        lemma_object_is_nested(ok_model()->Object_0, 100);
    }
    reply_line(v)
}

/// Carries out `reload`: every config is marked as up to date.  Returns the
/// reply and the message to broadcast.
pub fn handle_reload_cmd(statuses: &mut StatusMap) -> (r: (String, String))
    requires
        old(statuses).wf(),
    ensures
        final(statuses).wf(),
        final(statuses)@ == reset_states(old(statuses)@),
        is_reply(r.0@, ok_model()),
        r.1@ == json_text(reload_model()),
        json_parse(r.1@) == Some(reload_model()),
{
    statuses.reset();
    (ok_reply(), broadcast_reload())
}

/// The status of a config as JSON.
fn config_value(name: &str, state: &str) -> (v: serde_json::Value)
    ensures
        value_model(v) == config_model(name@, state@),
{
    let mut members = new_members();
    add_member(&mut members, "name", text_value(name));
    add_member(&mut members, "status", text_value(state));
    object_value(members)
}

/// Answers `status`: the state of each config and the number of clients.
pub fn handle_status_cmd(statuses: &StatusMap, connections: usize) -> (r: String)
    requires
        statuses.wf(),
    ensures
        is_reply(r@, status_model(statuses@, connections)),
{
    let ghost m = statuses@;
    let mut configs: Vec<serde_json::Value> = Vec::new();
    let mut i: usize = 0;
    while i < statuses.len()
        invariant
            statuses.wf(),
            m == statuses@,
            i <= m.names.len(),
            configs@.len() == i,
            forall|j: int|
                0 <= j < i ==> value_model(#[trigger] configs@[j]) == config_model(
                    m.names[j],
                    m.states[m.names[j]],
                ),
        decreases m.names.len() - i,
    {
        configs.push(config_value(statuses.name_at(i).as_str(), statuses.state_at(i).as_str()));
        i = i + 1;
    }
    let ghost listed = configs@;
    let mut members = new_members();
    add_member(&mut members, "configs", list_value(configs));
    add_member(&mut members, "connections", number_value(connections as u64));
    let v = object_value(members);
    proof {
        let expected = Seq::new(
            m.names.len(),
            |j: int| config_model(m.names[j], m.states[m.names[j]]),
        );
        assert(Seq::new(listed.len(), |j: int| value_model(listed[j])) =~= expected);
        assert(value_model(v) == status_model(m, connections));
        lemma_status_is_plain(m, connections);
    }
    reply_line(v)
}

proof fn lemma_status_is_plain(m: StatusModel, connections: usize)
    ensures
        plain(status_model(m, connections)),
{
    let list = Seq::new(m.names.len(), |j: int| config_model(m.names[j], m.states[m.names[j]]));
    assert forall|j: int| 0 <= j < list.len() implies nested_within(#[trigger] list[j], 98) by {
        lemma_object_is_nested(
            config_model(m.names[j], m.states[m.names[j]])->Object_0,
            98,
        );
    }
    assert(nested_within(JsonModel::List(list), 99));
    lemma_object_is_nested(status_model(m, connections)->Object_0, 100);
}

proof fn lemma_entry_is_plain(e: EntryModel)
    requires
        e.old_size <= u64::MAX,
        e.new_size <= u64::MAX,
    ensures
        plain(entry_json(e)),
{
    lemma_object_is_nested(entry_json(e)->Object_0, 100);
}

/// What an optional store holds.
pub open spec fn store_model(store: Option<&DiffStore>) -> Option<StoreModel> {
    match store {
        Some(s) => Some(s@),
        None => None,
    }
}

/// The text of an optional string slice.
pub open spec fn slice_text(s: Option<&str>) -> Option<Seq<char>> {
    match s {
        Some(t) => Some(t@),
        None => None,
    }
}

/// Answers `diff`: the latest diff of a path.
pub fn handle_diff_cmd(store: Option<&DiffStore>, path: Option<&str>) -> (r: String)
    requires
        store is Some ==> store->0.wf(),
    ensures
        is_reply(r@, diff_model(store_model(store), slice_text(path))),
{
    match store {
        None => error_reply("diff store is not enabled; start quay with --diff"),
        Some(s) => match path {
            None => error_reply("missing 'path' field"),
            Some(p) => match s.get_latest(p) {
                Some(entry) => {
                    proof {
                        lemma_entry_is_plain(entry@);
                    }
                    reply_line(entry.to_json())
                },
                None => {
                    let mut members = new_members();
                    add_member(&mut members, "error", text_value("no diff found"));
                    add_member(&mut members, "path", text_value(p));
                    let v = object_value(members);
                    assert(value_model(v) == no_diff_model(p@));
                    proof {
                        lemma_object_is_nested(no_diff_model(p@)->Object_0, 100);
                    }
                    reply_line(v)
                },
            },
        },
    }
}

/// What is listed of a tracked file, as JSON.
fn file_value(e: &crate::kv::DiffEntry) -> (v: serde_json::Value)
    ensures
        value_model(v) == file_model(e@),
{
    let mut members = new_members();
    let size: usize = e.diff.as_str().len();
    add_member(&mut members, "path", text_value(e.path.as_str()));
    add_member(&mut members, "latest_diff_size", number_value(size as u64));
    add_member(&mut members, "old_size", number_value(e.old_size as u64));
    add_member(&mut members, "new_size", number_value(e.new_size as u64));
    add_member(&mut members, "binary", flag_value(e.binary));
    add_member(&mut members, "truncated", flag_value(e.truncated));
    object_value(members)
}

/// Answers `diffs`: a summary of the store and the tracked files.
pub fn handle_diffs_cmd(store: Option<&DiffStore>) -> (r: String)
    requires
        store is Some ==> store->0.wf(),
    ensures
        is_reply(r@, diffs_model(store_model(store))),
{
    match store {
        None => error_reply("diff store is not enabled; start quay with --diff"),
        Some(s) => {
            let ghost m = s@;
            proof {
                s.lemma_wf();
            }
            let keys = s.list_keys();
            let mut files: Vec<serde_json::Value> = Vec::new();
            let mut i: usize = 0;
            while i < keys.len()
                invariant
                    s.wf(),
                    m == s@,
                    bounded(m),
                    i <= keys@.len() == m.keys.len(),
                    forall|j: int| 0 <= j < keys@.len() ==> (#[trigger] keys@[j])@ == m.keys[j],
                    files@.len() == i,
                    forall|j: int|
                        0 <= j < i ==> value_model(#[trigger] files@[j]) == files_model(m)[j],
                    forall|j: int|
                        0 <= j < i ==> nested_within(#[trigger] files_model(m)[j], 98),
                decreases m.keys.len() - i,
            {
                proof {
                    assert(m.keys.contains(m.keys[i as int]));
                    assert(m.histories.contains_key(m.keys[i as int]));
                }
                match s.get_latest(keys[i]) {
                    Some(entry) => {
                        proof {
                            assert(files_model(m)[i as int] == file_model(entry@));
                            lemma_object_is_nested(file_model(entry@)->Object_0, 98);
                        }
                        files.push(file_value(entry));
                    },
                    None => {
                        assert(false);
                    },
                }
                i = i + 1;
            }
            let ghost listed = files@;
            let summary = s.summary();
            let mut members = new_members();
            add_member(&mut members, "summary", summary.to_json());
            add_member(&mut members, "files", list_value(files));
            let v = object_value(members);
            proof {
                assert(Seq::new(listed.len(), |j: int| value_model(listed[j])) =~= files_model(m));
                assert(value_model(v) == diffs_model(Some(m)));
                lemma_object_is_nested(summary_json(summary)->Object_0, 99);
                assert(nested_within(JsonModel::List(files_model(m)), 99));
                lemma_object_is_nested(diffs_model(Some(m))->Object_0, 100);
            }
            reply_line(v)
        },
    }
}

/// Carries out `diff-clear`: drops everything from the diff store.
pub fn handle_diff_clear_cmd(store: Option<&mut DiffStore>) -> (r: String)
    requires
        store is Some ==> store->0.wf(),
    ensures
        store is None ==> is_reply(r@, error_model(not_enabled())),
        store is Some ==> is_reply(r@, ok_model()),
        store is Some ==> final(store->0).wf() && final(store->0)@ == empty_store(
            old(store->0)@.capacity,
            old(store->0)@.max_keys,
            old(store->0)@.max_file_size,
        ),
{
    match store {
        None => error_reply("diff store is not enabled; start quay with --diff"),
        Some(s) => {
            s.clear();
            ok_reply()
        },
    }
}

/// A command of the control protocol.
#[derive(Debug)]
pub enum ControlCommand {
    /// Broadcast a reload message and reset the statuses.
    Reload,
    /// Report the statuses and the number of clients.
    Status,
    /// Report the latest diff of a path.
    Diff { path: Option<String> },
    /// List the tracked files.
    Diffs,
    /// Drop everything from the diff store.
    DiffClear,
}

/// What a [`ControlCommand`] says.
pub enum CommandModel {
    Reload,
    Status,
    Diff(Option<Seq<char>>),
    Diffs,
    DiffClear,
}

impl View for ControlCommand {
    type V = CommandModel;

    open spec fn view(&self) -> CommandModel {
        match *self {
            ControlCommand::Reload => CommandModel::Reload,
            ControlCommand::Status => CommandModel::Status,
            ControlCommand::Diff { path } => CommandModel::Diff(crate::config::opt_text(path)),
            ControlCommand::Diffs => CommandModel::Diffs,
            ControlCommand::DiffClear => CommandModel::DiffClear,
        }
    }
}

/// Why a request cannot be served.
#[derive(Debug)]
pub enum RequestError {
    /// It is not JSON.
    InvalidJson,
    /// It does not carry the token that the server asks for.
    Unauthorized,
    /// It names no command.
    MissingCommand,
    /// It names a command that does not exist.
    UnknownCommand(String),
}

/// What a [`RequestError`] says.
pub enum ErrorModel {
    InvalidJson,
    Unauthorized,
    MissingCommand,
    UnknownCommand(Seq<char>),
}

impl View for RequestError {
    type V = ErrorModel;

    open spec fn view(&self) -> ErrorModel {
        match *self {
            RequestError::InvalidJson => ErrorModel::InvalidJson,
            RequestError::Unauthorized => ErrorModel::Unauthorized,
            RequestError::MissingCommand => ErrorModel::MissingCommand,
            RequestError::UnknownCommand(name) => ErrorModel::UnknownCommand(name@),
        }
    }
}

/// The text that is reported for a request that cannot be served.
pub open spec fn error_message(e: ErrorModel) -> Seq<char> {
    match e {
        ErrorModel::InvalidJson => "invalid json"@,
        ErrorModel::Unauthorized => "unauthorized"@,
        ErrorModel::MissingCommand => "missing 'cmd' field"@,
        ErrorModel::UnknownCommand(name) => "unknown command: "@ + name,
    }
}

/// The command of that name.
pub open spec fn command_named(name: Seq<char>, path: Option<Seq<char>>) -> Result<
    CommandModel,
    ErrorModel,
> {
    if name == "reload"@ {
        Ok(CommandModel::Reload)
    } else if name == "status"@ {
        Ok(CommandModel::Status)
    } else if name == "diff"@ {
        Ok(CommandModel::Diff(path))
    } else if name == "diffs"@ {
        Ok(CommandModel::Diffs)
    } else if name == "diff-clear"@ {
        Ok(CommandModel::DiffClear)
    } else {
        Err(ErrorModel::UnknownCommand(name))
    }
}

/// What a JSON request asks for, given the token that the server asks for.
pub open spec fn request_in(m: JsonModel, token: Option<Seq<char>>) -> Result<
    CommandModel,
    ErrorModel,
> {
    if token is Some && text_of_member(m, "auth_token"@) != token {
        Err(ErrorModel::Unauthorized)
    } else {
        match text_of_member(m, "cmd"@) {
            None => Err(ErrorModel::MissingCommand),
            Some(name) => command_named(name, text_of_member(m, "path"@)),
        }
    }
}

/// What a request asks for.
pub open spec fn request_of(line: Seq<char>, token: Option<Seq<char>>) -> Result<
    CommandModel,
    ErrorModel,
> {
    match json_parse(line) {
        None => Err(ErrorModel::InvalidJson),
        Some(m) => request_in(m, token),
    }
}

/// What the result of reading a request says.
pub open spec fn request_model(r: Result<ControlCommand, RequestError>) -> Result<
    CommandModel,
    ErrorModel,
> {
    match r {
        Ok(c) => Ok(c@),
        Err(e) => Err(e@),
    }
}

/// The command of that name.
pub fn command_from(name: String, path: Option<String>) -> (r: Result<ControlCommand, RequestError>)
    ensures
        request_model(r) == command_named(name@, crate::config::opt_text(path)),
{
    if same_text(name.as_str(), "reload") {
        Ok(ControlCommand::Reload)
    } else if same_text(name.as_str(), "status") {
        Ok(ControlCommand::Status)
    } else if same_text(name.as_str(), "diff") {
        Ok(ControlCommand::Diff { path })
    } else if same_text(name.as_str(), "diffs") {
        Ok(ControlCommand::Diffs)
    } else if same_text(name.as_str(), "diff-clear") {
        Ok(ControlCommand::DiffClear)
    } else {
        Err(RequestError::UnknownCommand(name))
    }
}

/// What a JSON request asks for, given the token that the server asks for.
pub fn read_request(v: &serde_json::Value, token: Option<&str>) -> (r: Result<
    ControlCommand,
    RequestError,
>)
    ensures
        request_model(r) == request_in(value_model(*v), slice_text(token)),
{
    match token {
        Some(expected) => {
            let authorized: bool = match text_member(v, "auth_token") {
                Some(given) => same_text(given.as_str(), expected),
                None => false,
            };
            if !authorized {
                return Err(RequestError::Unauthorized);
            }
        },
        None => {},
    }
    match text_member(v, "cmd") {
        None => Err(RequestError::MissingCommand),
        Some(name) => command_from(name, text_member(v, "path")),
    }
}

/// Reads a request.
pub fn parse_request(line: &str, token: Option<&str>) -> (r: Result<ControlCommand, RequestError>)
    ensures
        request_model(r) == request_of(line@, slice_text(token)),
{
    match parse_json(line) {
        Ok(v) => read_request(&v, token),
        Err(_) => Err(RequestError::InvalidJson),
    }
}

/// The reply to a request that cannot be served.
pub fn error_response(e: &RequestError) -> (r: String)
    ensures
        is_reply(r@, error_model(error_message(e@))),
{
    match e {
        RequestError::InvalidJson => error_reply("invalid json"),
        RequestError::Unauthorized => error_reply("unauthorized"),
        RequestError::MissingCommand => error_reply("missing 'cmd' field"),
        RequestError::UnknownCommand(name) => {
            let mut msg: String = "unknown command: ".to_owned();
            msg.append(name.as_str());
            error_reply(msg.as_str())
        },
    }
}

/// The reply to a request that is too long.
pub fn too_large_response() -> (r: String)
    ensures
        is_reply(r@, error_model("request too large"@)),
{
    error_reply("request too large")
}

/// The reply when the server's state cannot be read.
pub fn internal_error_response() -> (r: String)
    ensures
        is_reply(r@, error_model("internal error"@)),
{
    error_reply("internal error")
}

/// The reply to a command.
pub open spec fn reply_to(
    command: CommandModel,
    statuses: StatusModel,
    connections: usize,
    store: Option<StoreModel>,
) -> JsonModel {
    match command {
        CommandModel::Reload => ok_model(),
        CommandModel::Status => status_model(statuses, connections),
        CommandModel::Diff(path) => diff_model(store, path),
        CommandModel::Diffs => diffs_model(store),
        CommandModel::DiffClear => diff_clear_model(store),
    }
}

/// The reply to a request.
pub open spec fn reply_for(
    request: Result<CommandModel, ErrorModel>,
    statuses: StatusModel,
    connections: usize,
    store: Option<StoreModel>,
) -> JsonModel {
    match request {
        Ok(command) => reply_to(command, statuses, connections, store),
        Err(e) => error_model(error_message(e)),
    }
}

/// What an optional store that may change holds.
pub open spec fn held(store: Option<DiffStore>) -> Option<StoreModel> {
    match store {
        Some(s) => Some(s@),
        None => None,
    }
}

/// The store after a command was carried out.
pub open spec fn store_after(
    request: Result<CommandModel, ErrorModel>,
    store: Option<StoreModel>,
) -> Option<StoreModel> {
    match store {
        Some(m) => if request == Ok::<CommandModel, ErrorModel>(CommandModel::DiffClear) {
            Some(empty_store(m.capacity, m.max_keys, m.max_file_size))
        } else {
            Some(m)
        },
        None => None,
    }
}

/// The statuses after a command was carried out.
pub open spec fn statuses_after(
    request: Result<CommandModel, ErrorModel>,
    statuses: StatusModel,
) -> StatusModel {
    if request == Ok::<CommandModel, ErrorModel>(CommandModel::Reload) {
        reset_states(statuses)
    } else {
        statuses
    }
}

/// The outcome of a request.
#[derive(Debug)]
pub struct Reply {
    /// What to send back.
    pub response: String,
    /// What to broadcast to the clients, if anything.
    pub broadcast: Option<String>,
}

/// Serves a request that was read: carries out its command, or reports why it
/// cannot be served.
pub fn serve(
    request: Result<ControlCommand, RequestError>,
    statuses: &mut StatusMap,
    connections: usize,
    store: &mut Option<DiffStore>,
) -> (r: Reply)
    requires
        old(statuses).wf(),
        *old(store) is Some ==> old(store)->0.wf(),
    ensures
        final(statuses).wf(),
        *final(store) is Some ==> final(store)->0.wf(),
        is_reply(
            r.response@,
            reply_for(request_model(request), old(statuses)@, connections, held(*old(store))),
        ),
        final(statuses)@ == statuses_after(request_model(request), old(statuses)@),
        held(*final(store)) == store_after(request_model(request), held(*old(store))),
        request_model(request) == Ok::<CommandModel, ErrorModel>(CommandModel::Reload) ==> {
            &&& r.broadcast is Some
            &&& r.broadcast->0@ == json_text(reload_model())
            &&& json_parse(r.broadcast->0@) == Some(reload_model())
        },
        request_model(request) != Ok::<CommandModel, ErrorModel>(CommandModel::Reload)
            ==> r.broadcast is None,
{
    match request {
        Err(e) => Reply { response: error_response(&e), broadcast: None },
        Ok(command) => match command {
            ControlCommand::Reload => {
                let (response, message): (String, String) = handle_reload_cmd(statuses);
                Reply { response, broadcast: Some(message) }
            },
            ControlCommand::Status => Reply {
                response: handle_status_cmd(statuses, connections),
                broadcast: None,
            },
            ControlCommand::Diff { path } => {
                let response: String = match &path {
                    Some(p) => handle_diff_cmd(store.as_ref(), Some(p.as_str())),
                    None => handle_diff_cmd(store.as_ref(), None),
                };
                Reply { response, broadcast: None }
            },
            ControlCommand::Diffs => Reply {
                response: handle_diffs_cmd(store.as_ref()),
                broadcast: None,
            },
            ControlCommand::DiffClear => Reply {
                response: handle_diff_clear_cmd(store.as_mut()),
                broadcast: None,
            },
        },
    }
}

/// Answers a request line.
pub fn answer(
    line: &str,
    token: Option<&str>,
    statuses: &mut StatusMap,
    connections: usize,
    store: &mut Option<DiffStore>,
) -> (r: Reply)
    requires
        old(statuses).wf(),
        *old(store) is Some ==> old(store)->0.wf(),
    ensures
        final(statuses).wf(),
        *final(store) is Some ==> final(store)->0.wf(),
        ({
            let request = request_of(line@, slice_text(token));
            &&& is_reply(
                r.response@,
                reply_for(request, old(statuses)@, connections, held(*old(store))),
            )
            &&& final(statuses)@ == statuses_after(request, old(statuses)@)
            &&& held(*final(store)) == store_after(request, held(*old(store)))
            &&& r.broadcast is Some <==> request == Ok::<CommandModel, ErrorModel>(
                CommandModel::Reload,
            )
            &&& r.broadcast is Some ==> r.broadcast->0@ == json_text(reload_model())
        }),
{
    let request = parse_request(line, token);
    serve(request, statuses, connections, store)
}

/// The text that bytes stand for, with replacement characters where they are
/// not UTF-8.
pub uninterp spec fn utf8_lossy(bytes: Seq<u8>) -> Seq<char>;

/// `String::from_utf8_lossy`: the text of some bytes.  Bytes that are UTF-8
/// give exactly the text that they encode.
#[verifier::external_body]
fn text_lossy(bytes: &[u8]) -> (s: String)
    ensures
        s@ == utf8_lossy(bytes@),
        valid_utf8(bytes@) ==> s@ == decode_utf8(bytes@),
{
    String::from_utf8_lossy(bytes).into_owned()
}

/// The text of a request, with replacement characters where it is not UTF-8.
pub fn request_text(bytes: &[u8]) -> (r: String)
    ensures
        r@ == utf8_lossy(bytes@),
        valid_utf8(bytes@) ==> r@ == decode_utf8(bytes@),
{
    text_lossy(bytes)
}

/// What to do with the bytes of a request read so far.
#[derive(Debug, Clone, Copy, PartialEq, Eq, Structural)]
pub enum Framing {
    /// The request is the first so many bytes.
    Complete(usize),
    /// There is more to come.
    NeedMore,
    /// The request is too long.
    TooLarge,
}

/// The position of the first line break, or the length if there is none.
pub open spec fn line_len(bytes: Seq<u8>) -> int
    decreases bytes.len(),
{
    if bytes.len() == 0 {
        0
    } else if bytes[0] == 10 {
        0
    } else {
        1 + line_len(bytes.skip(1))
    }
}

/// What to do with the bytes read so far: a request ends at the first line
/// break, or where the client stops sending, and may take up to
/// [`CONTROL_READ_MAX_BYTES`].
pub open spec fn framing(bytes: Seq<u8>, ended: bool) -> Framing {
    let n = line_len(bytes);
    if n > CONTROL_READ_MAX_BYTES {
        Framing::TooLarge
    } else if n < bytes.len() || ended {
        Framing::Complete(n as usize)
    } else {
        Framing::NeedMore
    }
}

proof fn lemma_line_len(bytes: Seq<u8>, i: int)
    requires
        0 <= i <= bytes.len(),
        forall|j: int| 0 <= j < i ==> bytes[j] != 10,
    ensures
        line_len(bytes) == i + line_len(bytes.skip(i)),
    decreases i,
{
    if i == 0 {
        assert(bytes.skip(0) =~= bytes);
    } else {
        lemma_line_len(bytes.skip(1), i - 1);
        assert(bytes.skip(1).skip(i - 1) =~= bytes.skip(i));
    }
}

/// Decides what to do with the bytes of a request read so far.
pub fn frame_request(bytes: &[u8], ended: bool) -> (f: Framing)
    ensures
        f == framing(bytes@, ended),
{
    let mut i: usize = 0;
    while i < bytes.len() && bytes[i] != 10
        invariant
            i <= bytes@.len(),
            forall|j: int| 0 <= j < i ==> bytes@[j] != 10,
        decreases bytes@.len() - i,
    {
        i = i + 1;
    }
    proof {
        lemma_line_len(bytes@, i as int);
        if i < bytes@.len() {
            assert(bytes@.skip(i as int)[0] == 10);
        }
    }
    if i > CONTROL_READ_MAX_BYTES {
        Framing::TooLarge
    } else if i < bytes.len() || ended {
        Framing::Complete(i)
    } else {
        Framing::NeedMore
    }
}

/// A request longer than the limit is refused, however much more follows, and
/// never taken for a shorter one.
pub proof fn law_oversized_request_is_refused(bytes: Seq<u8>, ended: bool)
    requires
        bytes.len() > CONTROL_READ_MAX_BYTES,
        forall|i: int| 0 <= i <= CONTROL_READ_MAX_BYTES ==> bytes[i] != 10,
    ensures
        framing(bytes, ended) == Framing::TooLarge,
{
    lemma_line_len(bytes, CONTROL_READ_MAX_BYTES + 1);
    lemma_line_len_is_not_negative(bytes.skip(CONTROL_READ_MAX_BYTES + 1));
}

proof fn lemma_line_len_is_not_negative(bytes: Seq<u8>)
    ensures
        line_len(bytes) >= 0,
    decreases bytes.len(),
{
    if bytes.len() > 0 {
        lemma_line_len_is_not_negative(bytes.skip(1));
    }
}

/// The request of a client.
pub open spec fn request_json(
    command: Seq<char>,
    path: Option<Seq<char>>,
    token: Option<Seq<char>>,
) -> JsonModel {
    let base = map!["cmd"@ => JsonModel::Text(command)];
    let with_path = match path {
        Some(p) => base.insert("path"@, JsonModel::Text(p)),
        None => base,
    };
    JsonModel::Object(
        match token {
            Some(t) => with_path.insert("auth_token"@, JsonModel::Text(t)),
            None => with_path,
        },
    )
}

/// The request line of a client: a command, the path it is about and the token
/// that the server asks for.
pub fn request_line(command: &str, path: Option<&str>, token: Option<&str>) -> (r: String)
    ensures
        is_reply(r@, request_json(command@, slice_text(path), slice_text(token))),
{
    let mut members = new_members();
    add_member(&mut members, "cmd", text_value(command));
    match path {
        Some(p) => add_member(&mut members, "path", text_value(p)),
        None => {},
    }
    match token {
        Some(t) => add_member(&mut members, "auth_token", text_value(t)),
        None => {},
    }
    let v = object_value(members);
    proof {
        let m = request_json(command@, slice_text(path), slice_text(token));
        assert(value_model(v) == m);
        lemma_object_is_nested(m->Object_0, 100);
    }
    reply_line(v)
}

/// A client's request is understood as the command that it names: what the
/// server reads from the request is the command, with its path, if the token
/// is the one that the server asks for.
pub proof fn law_request_is_understood(
    command: Seq<char>,
    path: Option<Seq<char>>,
    token: Option<Seq<char>>,
)
    ensures
        request_in(request_json(command, path, token), token) == command_named(command, path),
        request_in(request_json(command, path, token), None) == command_named(command, path),
{
    reveal_strlit("cmd");
    reveal_strlit("path");
    reveal_strlit("auth_token");
    assert("cmd"@[0] == 'c' && "path"@[0] == 'p' && "auth_token"@[0] == 'a');
}

/// The bytes of a character hold a line break only if it is one.
proof fn lemma_char_bytes(c: char)
    requires
        c != '\n',
    ensures
        forall|i: int|
            0 <= i < encode_scalar(c as u32).len() ==> #[trigger] encode_scalar(c as u32)[i] != 10,
{
    let u = c as u32;
    assert(u <= 0x7f && u != 10 ==> (u & 0x7f) as u8 != 10) by (bit_vector);
    assert(0xc0u8 | ((u >> 6) & 0x1f) as u8 != 10) by (bit_vector);
    assert(0xe0u8 | ((u >> 12) & 0x0f) as u8 != 10) by (bit_vector);
    assert(0xf0u8 | ((u >> 18) & 0x7) as u8 != 10) by (bit_vector);
    assert(0x80u8 | (u & 0x3f) as u8 != 10) by (bit_vector);
    assert(0x80u8 | ((u >> 6) & 0x3f) as u8 != 10) by (bit_vector);
    assert(0x80u8 | ((u >> 12) & 0x3f) as u8 != 10) by (bit_vector);
}

/// A text without a line break is sent without one.
proof fn lemma_line_bytes(text: Seq<char>)
    requires
        !text.contains('\n'),
    ensures
        forall|i: int|
            0 <= i < encode_utf8(text).len() ==> #[trigger] encode_utf8(text)[i] != 10,
    decreases text.len(),
{
    if text.len() > 0 {
        let rest = text.drop_first();
        assert(text.contains(text[0]));
        assert(!rest.contains('\n')) by {
            if rest.contains('\n') {
                let i = choose|i: int| 0 <= i < rest.len() && rest[i] == '\n';
                assert(text[i + 1] == '\n');
            }
        }
        lemma_char_bytes(text[0]);
        lemma_line_bytes(rest);
        let first = encode_scalar(text[0] as u32);
        let whole = encode_utf8(text);
        assert(whole == first + encode_utf8(rest));
        assert forall|i: int| 0 <= i < whole.len() implies #[trigger] whole[i] != 10 by {
            if i < first.len() {
                assert(whole[i] == first[i]);
            } else {
                assert(whole[i] == encode_utf8(rest)[i - first.len()]);
            }
        }
    }
}

/// The line break after a text is sent as one more byte.
proof fn lemma_line_break_byte(text: Seq<char>)
    ensures
        encode_utf8(text.push('\n')) == encode_utf8(text).push(10),
    decreases text.len(),
{
    let whole = text.push('\n');
    if text.len() == 0 {
        assert((10u32 & 0x7f) as u8 == 10) by (bit_vector);
        assert(whole.drop_first() =~= Seq::<char>::empty());
        assert(encode_utf8(whole.drop_first()) =~= Seq::<u8>::empty());
        assert(encode_scalar('\n' as u32) =~= seq![10u8]);
        assert(encode_utf8(whole) == encode_scalar(whole[0] as u32) + encode_utf8(
            whole.drop_first(),
        ));
        assert(encode_utf8(whole) =~= encode_utf8(text).push(10));
    } else {
        lemma_line_break_byte(text.drop_first());
        assert(whole.drop_first() =~= text.drop_first().push('\n'));
        assert(encode_utf8(whole) == encode_scalar(whole[0] as u32) + encode_utf8(
            whole.drop_first(),
        ));
        assert(encode_utf8(whole) =~= encode_utf8(text).push(10));
    }
}

/// A client's request arrives as it was meant: of the bytes that are sent for it,
/// the server takes exactly the line, whether or not the client stops sending, and
/// reads the command from it.  Only a request over the limit does not get through.
pub proof fn law_sent_request_is_understood(
    text: Seq<char>,
    command: Seq<char>,
    path: Option<Seq<char>>,
    token: Option<Seq<char>>,
    ended: bool,
)
    requires
        is_reply(text, request_json(command, path, token)),
        encode_utf8(text.drop_last()).len() <= CONTROL_READ_MAX_BYTES,
    ensures
        ({
            let sent = encode_utf8(text);
            let line = sent.drop_last();
            &&& framing(sent, ended) == Framing::Complete(line.len() as usize)
            &&& valid_utf8(line)
            &&& request_of(decode_utf8(line), token) == command_named(command, path)
        }),
{
    let body = text.drop_last();
    let line = encode_utf8(body);
    assert(text =~= body.push('\n'));
    lemma_line_break_byte(body);
    lemma_line_bytes(body);
    let sent = line.push(10);
    assert(sent.drop_last() =~= line);
    lemma_line_len(sent, line.len() as int);
    assert(sent.skip(line.len() as int)[0] == 10);
    vstd::utf8::encode_utf8_valid_utf8(body);
    vstd::utf8::encode_utf8_decode_utf8(body);
    law_request_is_understood(command, path, token);
}

/// As long as the line break has not arrived, the server waits for more: a part of
/// a request is never taken for the whole.
pub proof fn law_partial_request_is_not_served(text: Seq<char>, m: JsonModel, arrived: int)
    requires
        is_reply(text, m),
        encode_utf8(text.drop_last()).len() <= CONTROL_READ_MAX_BYTES,
        0 <= arrived < encode_utf8(text).len(),
    ensures
        framing(encode_utf8(text).take(arrived), false) == Framing::NeedMore,
{
    let body = text.drop_last();
    let line = encode_utf8(body);
    assert(text =~= body.push('\n'));
    lemma_line_break_byte(body);
    lemma_line_bytes(body);
    let part = line.push(10).take(arrived);
    lemma_line_len(part, arrived);
    assert(part.skip(arrived) =~= Seq::<u8>::empty());
}

/// A server that asks for a token serves no request without it: nothing
/// changes, and the reply says so.
pub proof fn law_unauthorized_request_changes_nothing(
    m: JsonModel,
    token: Seq<char>,
    statuses: StatusModel,
    connections: usize,
    store: Option<StoreModel>,
)
    requires
        text_of_member(m, "auth_token"@) != Some(token),
    ensures
        ({
            let request = request_in(m, Some(token));
            &&& reply_for(request, statuses, connections, store) == error_model("unauthorized"@)
            &&& statuses_after(request, statuses) == statuses
            &&& store_after(request, store) == store
        }),
{
}

/// A recorded change is what `diff` reports for its path.
pub proof fn law_recorded_change_is_reported(
    m: StoreModel,
    path: Seq<char>,
    content: Seq<u8>,
    now: u64,
)
    requires
        bounded(m),
    ensures
        diff_model(Some(recorded(m, path, content, now)), Some(path)) == entry_json(
            entry_for(m, path, content, now),
        ),
{
    law_recorded_change_is_latest(m, path, content, now);
}

/// After `diff-clear` there is nothing to report, whatever was recorded before.
pub proof fn law_cleared_store_reports_nothing(m: StoreModel, path: Seq<char>)
    ensures
        ({
            let after = store_after(Ok(CommandModel::DiffClear), Some(m));
            &&& after is Some
            &&& diff_model(after, Some(path)) == no_diff_model(path)
            &&& files_model(after->0).len() == 0
            &&& summary_of(after->0).tracked_files == 0
            &&& summary_of(after->0).total_diffs == 0
        }),
{
}

/// After `reload` every config is listed as before, and as up to date.
pub proof fn law_reload_leaves_all_up_to_date(m: StatusModel, i: int)
    requires
        names_agree(m),
        0 <= i < m.names.len(),
    ensures
        ({
            let after = statuses_after(Ok(CommandModel::Reload), m);
            &&& after.names == m.names
            &&& after.states[m.names[i]] == up_to_date()
        }),
{
    assert(m.names.contains(m.names[i]));
    assert(m.states.contains_key(m.names[i]));
}

/// A request for information changes nothing.
pub proof fn law_queries_change_nothing(
    command: CommandModel,
    statuses: StatusModel,
    store: Option<StoreModel>,
)
    requires
        command is Status || command is Diff || command is Diffs,
    ensures
        statuses_after(Ok(command), statuses) == statuses,
        store_after(Ok(command), store) == store,
{
}

/// Whether a JSON value lists a file with the latest change that is given.
pub open spec fn lists_change(item: JsonModel, e: EntryModel) -> bool {
    &&& member(item, "path"@) == Some(JsonModel::Text(e.path))
    &&& encode_utf8(e.diff).len() <= usize::MAX ==> member(item, "latest_diff_size"@) == Some(
        JsonModel::Number(encode_utf8(e.diff).len() as int),
    )
    &&& member(item, "old_size"@) == Some(JsonModel::Number(e.old_size as int))
    &&& member(item, "new_size"@) == Some(JsonModel::Number(e.new_size as int))
    &&& member(item, "binary"@) == Some(JsonModel::Bool(e.binary))
    &&& member(item, "truncated"@) == Some(JsonModel::Bool(e.truncated))
    &&& member(item, "diff"@) is None
}

/// The fields of a listed file are those of the entry.
proof fn lemma_file_model(e: EntryModel)
    ensures
        lists_change(file_model(e), e),
{
    reveal_strlit("path");
    reveal_strlit("latest_diff_size");
    reveal_strlit("diff");
    reveal_strlit("old_size");
    reveal_strlit("new_size");
    reveal_strlit("binary");
    reveal_strlit("truncated");
    assert("path"@[0] == 'p' && "latest_diff_size"@[0] == 'l' && "diff"@[0] == 'd'
        && "old_size"@[0] == 'o' && "new_size"@[0] == 'n' && "binary"@[0] == 'b'
        && "truncated"@[0] == 't');
}

/// The list in the reply to `diffs`.
pub open spec fn listed_files(reply: JsonModel) -> Seq<JsonModel> {
    match member(reply, "files"@) {
        Some(JsonModel::List(items)) => items,
        _ => Seq::empty(),
    }
}

/// The reply to `diffs` lists every tracked path once, in the order in which they came in,
/// each with the latest change that is kept of it, after the summary of the store.
pub proof fn law_diffs_lists_the_latest_changes(m: StoreModel, i: int)
    requires
        bounded(m),
    ensures
        ({
            let reply = diffs_model(Some(m));
            let files = listed_files(reply);
            &&& member(reply, "summary"@) == Some(summary_json(summary_of(m)))
            &&& member(reply, "files"@) == Some(JsonModel::List(files))
            &&& files.len() == m.keys.len()
            &&& 0 <= i < files.len() ==> lists_change(files[i], m.histories[m.keys[i]].last())
            &&& 0 <= i < files.len() ==> member(files[i], "path"@) == Some(
                JsonModel::Text(m.keys[i]),
            )
        }),
        member(diffs_model(None), "error"@) == Some(
            JsonModel::Text("diff store is not enabled; start quay with --diff"@),
        ),
{
    reveal_strlit("summary");
    reveal_strlit("files");
    assert("summary"@[0] == 's' && "files"@[0] == 'f');
    if 0 <= i < m.keys.len() {
        let path = m.keys[i];
        assert(m.keys.contains(path));
        assert(m.histories.contains_key(path));
        let entries = m.histories[path];
        assert(1 <= entries.len());
        lemma_file_model(entries.last());
        assert(entries[entries.len() - 1].path == path);
        assert(files_model(m)[i] == file_model(entries.last()));
    }
}

/// After a change of a path was recorded, `diffs` lists the path with exactly that change,
/// however many changes of it were recorded before.
pub proof fn law_recorded_change_is_listed(
    m: StoreModel,
    path: Seq<char>,
    content: Seq<u8>,
    now: u64,
    i: int,
)
    requires
        bounded(m),
    ensures
        ({
            let r = recorded(m, path, content, now);
            let files = listed_files(diffs_model(Some(r)));
            &&& r.keys.contains(path)
            &&& files.len() == r.keys.len()
            &&& 0 <= i < r.keys.len() && r.keys[i] == path ==> lists_change(
                files[i],
                entry_for(m, path, content, now),
            )
        }),
{
    let r = recorded(m, path, content, now);
    crate::kv::law_recording_is_bounded(m, path, content, now);
    law_recorded_change_is_latest(m, path, content, now);
    law_diffs_lists_the_latest_changes(r, i);
    assert(r.histories.contains_key(path));
}

/// The reply to `status` lists every config with its state, in order, and the number of
/// clients.
pub proof fn law_status_reports_every_config(m: StatusModel, connections: usize, i: int)
    ensures
        ({
            let reply = status_model(m, connections);
            let configs = match member(reply, "configs"@) {
                Some(JsonModel::List(items)) => items,
                _ => Seq::empty(),
            };
            &&& member(reply, "connections"@) == Some(JsonModel::Number(connections as int))
            &&& member(reply, "configs"@) is Some
            &&& configs.len() == m.names.len()
            &&& 0 <= i < m.names.len() ==> {
                &&& text_of_member(configs[i], "name"@) == Some(m.names[i])
                &&& text_of_member(configs[i], "status"@) == Some(m.states[m.names[i]])
            }
        }),
{
    reveal_strlit("configs");
    reveal_strlit("connections");
    reveal_strlit("name");
    reveal_strlit("status");
    assert("configs"@.len() == 7 && "connections"@.len() == 11 && "name"@[0] == 'n' && "status"@[0]
        == 's');
}

/// What `diff` answers: the latest change that is kept of the path, or why there is none.
pub proof fn law_diff_reports_the_latest_change(m: StoreModel, path: Seq<char>)
    requires
        bounded(m),
    ensures
        m.histories.contains_key(path) ==> diff_model(Some(m), Some(path)) == entry_json(
            m.histories[path].last(),
        ),
        !m.histories.contains_key(path) ==> {
            let reply = diff_model(Some(m), Some(path));
            &&& text_of_member(reply, "error"@) == Some("no diff found"@)
            &&& text_of_member(reply, "path"@) == Some(path)
        },
        text_of_member(diff_model(Some(m), None), "error"@) == Some("missing 'path' field"@),
        text_of_member(diff_model(None, Some(path)), "error"@) == Some(
            "diff store is not enabled; start quay with --diff"@,
        ),
        text_of_member(diff_clear_model(None), "error"@) == Some(
            "diff store is not enabled; start quay with --diff"@,
        ),
        text_of_member(diff_clear_model(Some(m)), "status"@) == Some("ok"@),
{
    reveal_strlit("error");
    reveal_strlit("path");
    assert("error"@[0] == 'e' && "path"@[0] == 'p');
}

/// A refused request is answered by what is wrong with it, and changes nothing.
pub proof fn law_refused_request(
    e: ErrorModel,
    name: Seq<char>,
    statuses: StatusModel,
    connections: usize,
    store: Option<StoreModel>,
)
    ensures
        statuses_after(Err(e), statuses) == statuses,
        store_after(Err(e), store) == store,
        text_of_member(
            reply_for(Err(ErrorModel::InvalidJson), statuses, connections, store),
            "error"@,
        ) == Some("invalid json"@),
        text_of_member(
            reply_for(Err(ErrorModel::Unauthorized), statuses, connections, store),
            "error"@,
        ) == Some("unauthorized"@),
        text_of_member(
            reply_for(Err(ErrorModel::MissingCommand), statuses, connections, store),
            "error"@,
        ) == Some("missing 'cmd' field"@),
        text_of_member(
            reply_for(Err(ErrorModel::UnknownCommand(name)), statuses, connections, store),
            "error"@,
        ) == Some("unknown command: "@ + name),
{
}

/// Each command has its name, and any other name is reported as unknown.
pub proof fn law_commands_have_names(name: Seq<char>, path: Option<Seq<char>>)
    ensures
        ({
            let c = command_named(name, path);
            &&& c == Ok::<CommandModel, ErrorModel>(CommandModel::Reload) <==> name == "reload"@
            &&& c == Ok::<CommandModel, ErrorModel>(CommandModel::Status) <==> name == "status"@
            &&& c == Ok::<CommandModel, ErrorModel>(CommandModel::Diff(path)) <==> name == "diff"@
            &&& c == Ok::<CommandModel, ErrorModel>(CommandModel::Diffs) <==> name == "diffs"@
            &&& c == Ok::<CommandModel, ErrorModel>(CommandModel::DiffClear) <==> name
                == "diff-clear"@
            &&& c is Err ==> c == Err::<CommandModel, ErrorModel>(ErrorModel::UnknownCommand(name))
            &&& c is Err <==> name != "reload"@ && name != "status"@ && name != "diff"@ && name
                != "diffs"@ && name != "diff-clear"@
        }),
{
    reveal_strlit("reload");
    reveal_strlit("status");
    reveal_strlit("diff");
    reveal_strlit("diffs");
    reveal_strlit("diff-clear");
    assert("reload"@.len() == 6 && "status"@.len() == 6 && "reload"@[0] == 'r' && "status"@[0] == 's'
        && "diff"@.len() == 4 && "diffs"@.len() == 5 && "diff-clear"@.len() == 10);
}

/// A request is taken by its `cmd` and `path`, once it carries the token that the server
/// asks for.  A server without a token asks for none.
pub proof fn law_request_is_taken_by_its_members(m: JsonModel, token: Option<Seq<char>>)
    ensures
        token is Some && text_of_member(m, "auth_token"@) != token ==> request_in(m, token)
            == Err::<CommandModel, ErrorModel>(ErrorModel::Unauthorized),
        token is None || text_of_member(m, "auth_token"@) == token ==> {
            let name = text_of_member(m, "cmd"@);
            &&& name is None ==> request_in(m, token) == Err::<CommandModel, ErrorModel>(
                ErrorModel::MissingCommand,
            )
            &&& name is Some ==> request_in(m, token) == command_named(
                name->0,
                text_of_member(m, "path"@),
            )
        },
{
}

/// A line is taken by what it says as JSON, and refused if it is none.
pub proof fn law_line_is_taken_as_json(line: Seq<char>, token: Option<Seq<char>>)
    ensures
        json_parse(line) is None ==> request_of(line, token) == Err::<CommandModel, ErrorModel>(
            ErrorModel::InvalidJson,
        ),
        json_parse(line) is Some ==> request_of(line, token) == request_in(
            json_parse(line)->0,
            token,
        ),
{
}

/// What each command is answered, and what it changes: `reload` marks every config as up to
/// date, `diff-clear` empties the store within its bounds, and nothing else changes
/// anything.
pub proof fn law_what_commands_do(
    statuses: StatusModel,
    connections: usize,
    m: StoreModel,
    path: Option<Seq<char>>,
    name: Seq<char>,
)
    ensures
        ({
            let s = Some(m);
            let reload = Ok::<CommandModel, ErrorModel>(CommandModel::Reload);
            let clear = Ok::<CommandModel, ErrorModel>(CommandModel::DiffClear);
            let after = store_after(clear, s);
            let reset = statuses_after(reload, statuses);
            &&& text_of_member(reply_for(reload, statuses, connections, s), "status"@) == Some(
                "ok"@,
            )
            &&& text_of_member(reply_for(clear, statuses, connections, s), "status"@) == Some("ok"@)
            &&& reply_for(Ok(CommandModel::Status), statuses, connections, s) == status_model(
                statuses,
                connections,
            )
            &&& reply_for(Ok(CommandModel::Diff(path)), statuses, connections, s) == diff_model(
                s,
                path,
            )
            &&& reply_for(Ok(CommandModel::Diffs), statuses, connections, s) == diffs_model(s)
            &&& store_after(reload, s) == s
            &&& statuses_after(clear, statuses) == statuses
            &&& reset.names == statuses.names
            &&& reset.states.contains_key(name) <==> statuses.states.contains_key(name)
            &&& statuses.states.contains_key(name) ==> reset.states[name] == "up to date"@
            &&& after is Some && after->0.keys.len() == 0
            &&& !after->0.histories.contains_key(name) && !after->0.snapshots.contains_key(name)
            &&& after->0.capacity == m.capacity && after->0.max_keys == m.max_keys
                && after->0.max_file_size == m.max_file_size
        }),
{
}

/// A request ends at its first line break, or where the client stops sending, and is
/// refused exactly if it has more than 65536 bytes.  Until then the server waits.
pub proof fn law_request_ends_at_its_first_line_break(bytes: Seq<u8>, n: int, ended: bool)
    requires
        0 <= n <= bytes.len(),
        forall|j: int| 0 <= j < n ==> bytes[j] != 10,
        n < bytes.len() ==> bytes[n] == 10,
    ensures
        n > 65536 ==> framing(bytes, ended) is TooLarge,
        n <= 65536 && (n < bytes.len() || ended) ==> framing(bytes, ended) == Framing::Complete(
            n as usize,
        ),
        n <= 65536 && n == bytes.len() && !ended ==> framing(bytes, ended) is NeedMore,
{
    lemma_line_len(bytes, n);
    if n < bytes.len() {
        assert(bytes.skip(n)[0] == 10);
    }
}

/// The request of a client has the command, the path and the token, each if it is given.
pub proof fn law_request_has_its_members(
    command: Seq<char>,
    path: Option<Seq<char>>,
    token: Option<Seq<char>>,
)
    ensures
        text_of_member(request_json(command, path, token), "cmd"@) == Some(command),
        text_of_member(request_json(command, path, token), "path"@) == path,
        text_of_member(request_json(command, path, token), "auth_token"@) == token,
{
    reveal_strlit("cmd");
    reveal_strlit("path");
    reveal_strlit("auth_token");
    assert("cmd"@[0] == 'c' && "path"@[0] == 'p' && "auth_token"@[0] == 'a');
}

/// A reply is one line: a JSON text with the contents, and a line break that is its only
/// one.
pub proof fn law_reply_is_one_line_of_json(text: Seq<char>, m: JsonModel, i: int)
    requires
        is_reply(text, m),
    ensures
        text.len() > 0,
        text.last() == '\n',
        0 <= i < text.len() - 1 ==> text[i] != '\n',
        json_parse(text.take(text.len() - 1)) == Some(m),
        text.take(text.len() - 1) == json_text(m),
{
    let body = text.drop_last();
    assert(body =~= text.take(text.len() - 1));
    assert(body =~= json_text(m));
    if 0 <= i < text.len() - 1 {
        assert(body[i] == text[i]);
        assert(body.contains(body[i]));
    }
}

/// What a refused request and a command that was carried out are answered.
pub proof fn law_plain_answers(message: Seq<char>, name: Seq<char>)
    ensures
        text_of_member(error_model(message), "error"@) == Some(message),
        text_of_member(ok_model(), "status"@) == Some("ok"@),
        text_of_member(ok_model(), "error"@) is None,
        error_message(ErrorModel::InvalidJson) == "invalid json"@,
        error_message(ErrorModel::Unauthorized) == "unauthorized"@,
        error_message(ErrorModel::MissingCommand) == "missing 'cmd' field"@,
        error_message(ErrorModel::UnknownCommand(name)) == "unknown command: "@ + name,
{
    reveal_strlit("error");
    reveal_strlit("status");
    assert("error"@[0] == 'e' && "status"@[0] == 's');
}

/// A command and an error say what they are, with all that they carry.
pub proof fn law_commands_and_errors_say_what_they_are(
    path: Option<String>,
    name: String,
    c: ControlCommand,
    e: RequestError,
    s: DiffStore,
)
    ensures
        ControlCommand::Reload@ == CommandModel::Reload,
        ControlCommand::Status@ == CommandModel::Status,
        path is Some ==> (ControlCommand::Diff { path })@ == CommandModel::Diff(Some(path->0@)),
        path is None ==> (ControlCommand::Diff { path })@ == CommandModel::Diff(None),
        ControlCommand::Diffs@ == CommandModel::Diffs,
        ControlCommand::DiffClear@ == CommandModel::DiffClear,
        RequestError::InvalidJson@ == ErrorModel::InvalidJson,
        RequestError::Unauthorized@ == ErrorModel::Unauthorized,
        RequestError::MissingCommand@ == ErrorModel::MissingCommand,
        RequestError::UnknownCommand(name)@ == ErrorModel::UnknownCommand(name@),
        request_model(Ok(c)) == Ok::<CommandModel, ErrorModel>(c@),
        request_model(Err(e)) == Err::<CommandModel, ErrorModel>(e@),
        held(Some(s)) == Some(s@),
        held(None) is None,
        store_model(Some(&s)) == Some(s@),
        store_model(None) is None,
{
}

/// What each command is answered, whether or not there is a diff store.
pub proof fn law_what_commands_answer(
    statuses: StatusModel,
    connections: usize,
    store: Option<StoreModel>,
    path: Option<Seq<char>>,
    request: Result<CommandModel, ErrorModel>,
)
    ensures
        reply_for(Ok(CommandModel::Status), statuses, connections, store) == status_model(
            statuses,
            connections,
        ),
        text_of_member(
            reply_for(Ok(CommandModel::Reload), statuses, connections, store),
            "status"@,
        ) == Some("ok"@),
        reply_for(Ok(CommandModel::Diff(path)), statuses, connections, store) == diff_model(
            store,
            path,
        ),
        reply_for(Ok(CommandModel::Diffs), statuses, connections, store) == diffs_model(store),
        store is Some ==> text_of_member(
            reply_for(Ok(CommandModel::DiffClear), statuses, connections, store),
            "status"@,
        ) == Some("ok"@),
        store is None ==> text_of_member(
            reply_for(Ok(CommandModel::DiffClear), statuses, connections, store),
            "error"@,
        ) == Some("diff store is not enabled; start quay with --diff"@),
        store is None ==> store_after(request, store) is None,
        text_of_member(diffs_model(None), "error"@) == Some(
            "diff store is not enabled; start quay with --diff"@,
        ),
        text_of_member(diff_model(None, path), "error"@) == Some(
            "diff store is not enabled; start quay with --diff"@,
        ),
{
}

} // verus!
