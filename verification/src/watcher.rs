//! Event filtering, debouncing and the handling of changes.
//!
//! Events are debounced per path, filtered, matched against the loaded configs,
//! and turned into actions: commands to run, statuses to set and messages to
//! broadcast.  The program around the library performs them in order.

use crate::command::{fill_in, filled_in, Shell};
use crate::config::{
    compiled_entry, entry_from, law_mode_is_named, opt_text, ConfigEntry, NotifyMode, RawConfig,
};
use crate::debounce::{
    aged, clamped_window, law_young_keys_are_young, take_aged, young_entries, young_keys, MIN_WINDOW,
};
use crate::encoding::{base64_encode, base64_text};
use crate::filter::{
    admitted, forward_slashes, matched, normalize_path, relativize_to_root, relativized, PathFilter,
};
use crate::globs::texts;
use crate::json::{
    add_member, json_parse, json_string, json_text, nested_within, new_members, object_value, plain,
    text_value, value_model, JsonModel,
};
use crate::ordered::{law_new_key_goes_to_the_end, with_key, OrderedMap};
use crate::path::{
    components, extension, extension_of, law_components_stand_between_separators, same_components,
    same_path,
};
use crate::server::{all_up_to_date, new_status_map, up_to_date, StatusMap};
use crate::text::{all_space, ascii_lower_all, lower_ascii, no_space_around, same_text};
pub use crate::command::shell_escape;
use std::sync::atomic::AtomicUsize;
use std::sync::Arc;
use vstd::prelude::*;
use vstd::string::*;

verus! {

/// How a file was accessed.
#[derive(Debug, Clone, Copy, PartialEq, Eq, Structural)]
pub enum AccessMode {
    Any,
    Execute,
    Read,
    Write,
    Other,
}

/// An access that did not change anything.
#[derive(Debug, Clone, Copy, PartialEq, Eq, Structural)]
pub enum AccessKind {
    Any,
    Read,
    Open(AccessMode),
    Close(AccessMode),
    Other,
}

/// What was created.
#[derive(Debug, Clone, Copy, PartialEq, Eq, Structural)]
pub enum CreateKind {
    Any,
    File,
    Folder,
    Other,
}

/// How data changed.
#[derive(Debug, Clone, Copy, PartialEq, Eq, Structural)]
pub enum DataChange {
    Any,
    Size,
    Content,
    Other,
}

/// Which metadata changed.
#[derive(Debug, Clone, Copy, PartialEq, Eq, Structural)]
pub enum MetadataKind {
    Any,
    AccessTime,
    WriteTime,
    Permissions,
    Ownership,
    Extended,
    Other,
}

/// Which side of a rename an event reports.
#[derive(Debug, Clone, Copy, PartialEq, Eq, Structural)]
pub enum RenameMode {
    Any,
    To,
    From,
    Both,
    Other,
}

/// What was modified.
#[derive(Debug, Clone, Copy, PartialEq, Eq, Structural)]
pub enum ModifyKind {
    Any,
    Data(DataChange),
    Metadata(MetadataKind),
    Name(RenameMode),
    Other,
}

/// What was removed.
#[derive(Debug, Clone, Copy, PartialEq, Eq, Structural)]
pub enum RemoveKind {
    Any,
    File,
    Folder,
    Other,
}

/// The kind of a file-system event.
#[derive(Debug, Clone, Copy, PartialEq, Eq, Structural)]
pub enum EventKind {
    Any,
    Access(AccessKind),
    Create(CreateKind),
    Modify(ModifyKind),
    Remove(RemoveKind),
    Other,
}

/// Whether an event may have changed data: files that were created, removed,
/// renamed or written, and events without further detail.
pub open spec fn affects_data(kind: EventKind) -> bool {
    match kind {
        EventKind::Create(_) => true,
        EventKind::Remove(_) => true,
        EventKind::Any => true,
        EventKind::Modify(ModifyKind::Data(_)) => true,
        EventKind::Modify(ModifyKind::Name(_)) => true,
        EventKind::Modify(ModifyKind::Any) => true,
        _ => false,
    }
}

/// Returns `true` when an event represents a data-affecting change.
///
/// Accesses, changes of metadata only and events of an unknown kind are
/// ignored.
pub fn is_relevant_event(kind: &EventKind) -> (r: bool)
    ensures
        r == affects_data(*kind),
{
    match kind {
        EventKind::Create(_) => true,
        EventKind::Remove(_) => true,
        EventKind::Modify(modify_kind) => match modify_kind {
            ModifyKind::Data(_) => true,
            ModifyKind::Name(_) => true,
            ModifyKind::Any => true,
            ModifyKind::Metadata(_) => false,
            ModifyKind::Other => false,
        },
        EventKind::Access(_) => false,
        EventKind::Other => false,
        EventKind::Any => true,
    }
}

/// The number of connected clients after another one connected.
pub open spec fn count_after_connect(n: usize) -> usize {
    if n == usize::MAX {
        0
    } else {
        (n + 1) as usize
    }
}

/// The number of connected clients after one disconnected; never below zero.
pub open spec fn count_after_disconnect(n: usize) -> usize {
    if n == 0 {
        0
    } else {
        (n - 1) as usize
    }
}

/// Counts a client in.
pub fn after_connect(n: usize) -> (r: usize)
    ensures
        r == count_after_connect(n),
{
    n.wrapping_add(1)
}

/// Counts a client out; the count never goes below zero.
pub fn after_disconnect(n: usize) -> (r: usize)
    ensures
        r == count_after_disconnect(n),
{
    if n == 0 {
        0
    } else {
        n - 1
    }
}

/// A client that connects and disconnects leaves the count as it was, and a
/// disconnect at zero stays at zero.
pub proof fn law_connect_then_disconnect(n: usize)
    requires
        n < usize::MAX,
    ensures
        count_after_disconnect(count_after_connect(n)) == n,
        count_after_disconnect(0) == 0,
{
}

/// `AtomicUsize::fetch_update` with [`after_disconnect`] as the update: replaces
/// the value by its successor in one step and returns the value that it
/// replaced.  The value is shared between threads, so nothing is said of it.
#[verifier::external_body]
fn count_down(counter: &AtomicUsize) -> usize {
    let relaxed = std::sync::atomic::Ordering::Relaxed;
    match counter.fetch_update(relaxed, relaxed, |n| Some(after_disconnect(n))) {
        Ok(previous) => previous,
        Err(previous) => previous,
    }
}

/// Atomically increments the connection count and returns the new value.
pub fn track_connect(counter: &Arc<AtomicUsize>) -> (n: usize)
    ensures
        exists|before: usize| n == count_after_connect(before),
{
    let before: usize = counter.fetch_add(1, std::sync::atomic::Ordering::Relaxed);
    after_connect(before)
}

/// Atomically decrements the connection count and returns the new value.  A
/// count of zero stays at zero.
pub fn track_disconnect(counter: &Arc<AtomicUsize>) -> (n: usize)
    ensures
        exists|before: usize| n == count_after_disconnect(before),
{
    let before: usize = count_down(counter);
    after_disconnect(before)
}

/// After how many events stale entries are pruned.
pub const DEFAULT_PRUNE_INTERVAL: u64 = 1000;

/// How many windows an entry may be old before it counts as stale.
pub const STALE_WINDOWS: u128 = 10;

/// Suppresses events of a path that follow each other within a time window.
///
/// Stale entries are pruned every so many events, so that the table does not
/// grow without bound in long sessions.
pub struct Debouncer {
    window: u128,
    last_seen: OrderedMap<u128>,
    events_since_prune: u64,
    prune_interval: u64,
}

/// What a [`Debouncer`] holds.  Times are in nanoseconds.
#[verifier::ext_equal]
pub struct SeenModel {
    /// How long events of a path are suppressed after one.
    pub window: u128,
    /// The paths seen, in the order of their first event.
    pub paths: Seq<Seq<char>>,
    /// When each path was last seen.
    pub times: Map<Seq<char>, u128>,
    /// Events since stale entries were last pruned.
    pub events_since_prune: u64,
    /// Every so many events stale entries are pruned.
    pub prune_interval: u64,
}

/// The age at which an entry is stale, as far as the clock goes.
pub open spec fn stale_age(window: u128) -> u128 {
    if window * STALE_WINDOWS > u128::MAX {
        u128::MAX
    } else {
        (window * STALE_WINDOWS) as u128
    }
}

/// How much time has passed since `ts`; none if `ts` lies ahead.
pub open spec fn time_since(ts: u128, now: u128) -> int {
    if now >= ts {
        now - ts
    } else {
        0
    }
}

/// Whether an event comes too soon after the last one of its path.
pub open spec fn too_soon(m: SeenModel, path: Seq<char>, now: u128) -> bool {
    m.times.contains_key(path) && time_since(m.times[path], now) <= m.window
}

/// The table after an event: the path was seen now, and every
/// `prune_interval` events the stale entries go.
pub open spec fn seen(m: SeenModel, path: Seq<char>, now: u128) -> SeenModel {
    let paths = with_key(m.paths, path);
    let times = m.times.insert(path, now);
    if m.events_since_prune + 1 >= m.prune_interval {
        SeenModel {
            paths: young_keys(paths, times, now, stale_age(m.window)),
            times: young_entries(times, now, stale_age(m.window)),
            events_since_prune: 0,
            ..m
        }
    } else {
        SeenModel {
            paths,
            times,
            events_since_prune: (m.events_since_prune + 1) as u64,
            ..m
        }
    }
}

impl View for Debouncer {
    type V = SeenModel;

    closed spec fn view(&self) -> SeenModel {
        SeenModel {
            window: self.window,
            paths: self.last_seen.keys(),
            times: self.last_seen@,
            events_since_prune: self.events_since_prune,
            prune_interval: self.prune_interval,
        }
    }
}

impl Debouncer {
    /// The debouncer is well-formed.
    pub closed spec fn wf(&self) -> bool {
        &&& self.last_seen.wf()
        &&& self.window > 0
        &&& self.events_since_prune < u64::MAX
    }

    /// A well-formed debouncer has a window in which it suppresses events, and
    /// knows a time for exactly the paths that it lists, each once.
    pub proof fn lemma_wf(&self)
        requires
            self.wf(),
        ensures
            self@.window > 0,
            self@.events_since_prune < u64::MAX,
            self@.paths.no_duplicates(),
            forall|p: Seq<char>| #[trigger]
                self@.times.contains_key(p) <==> self@.paths.contains(p),
    {
        self.last_seen.lemma_domain();
    }

    /// Creates a debouncer.  A window of no time is raised to one millisecond,
    /// since it would disable debouncing.
    pub fn new(window: u128) -> (d: Self)
        ensures
            d.wf(),
            d@ == (SeenModel {
                window: clamped_window(window),
                paths: Seq::empty(),
                times: Map::empty(),
                events_since_prune: 0,
                prune_interval: DEFAULT_PRUNE_INTERVAL,
            }),
    {
        Debouncer {
            window: if window == 0 {
                MIN_WINDOW
            } else {
                window
            },
            last_seen: OrderedMap::new(),
            events_since_prune: 0,
            prune_interval: DEFAULT_PRUNE_INTERVAL,
        }
    }

    /// Prunes after every `interval` events from now on.
    pub fn set_prune_interval(&mut self, interval: u64)
        requires
            old(self).wf(),
        ensures
            final(self).wf(),
            final(self)@ == (SeenModel { prune_interval: interval, ..old(self)@ }),
    {
        self.prune_interval = interval;
    }

    /// How long events of a path are suppressed after one.
    pub fn window(&self) -> (w: u128)
        ensures
            w == self@.window,
    {
        self.window
    }

    /// Every so many events stale entries are pruned.
    pub fn prune_interval(&self) -> (n: u64)
        ensures
            n == self@.prune_interval,
    {
        self.prune_interval
    }

    /// Events since stale entries were last pruned.
    pub fn events_since_prune(&self) -> (n: u64)
        ensures
            n == self@.events_since_prune,
    {
        self.events_since_prune
    }

    /// The number of paths in the table.
    pub fn seen_len(&self) -> (n: usize)
        ensures
            n == self@.paths.len(),
    {
        self.last_seen.len()
    }

    /// Whether a path is in the table.
    pub fn has_seen(&self, path: &str) -> (r: bool)
        requires
            self.wf(),
        ensures
            r == self@.times.contains_key(path@),
    {
        self.last_seen.contains_key(path)
    }

    /// Returns `true` if an event of the path at the time `now` should be
    /// processed: more than the window has passed since the last one.
    pub fn should_handle(&mut self, path: &str, now: u128) -> (r: bool)
        requires
            old(self).wf(),
        ensures
            final(self).wf(),
            r == !too_soon(old(self)@, path@, now),
            final(self)@ == seen(old(self)@, path@, now),
    {
        let dominated: bool = match self.last_seen.get(path) {
            Some(prev) => now < *prev || now - *prev <= self.window,
            None => false,
        };
        self.last_seen.insert(path.to_owned(), now);
        let events: u64 = self.events_since_prune + 1;
        if events >= self.prune_interval {
            self.events_since_prune = 0;
            let threshold: u128 = if self.window > u128::MAX / STALE_WINDOWS {
                u128::MAX
            } else {
                self.window * STALE_WINDOWS
            };
            assert(threshold == stale_age(self.window));
            let _pruned = take_aged(&mut self.last_seen, now, threshold);
        } else {
            self.events_since_prune = events;
        }
        !dominated
    }
}

/// The first event of a path is handled.  After any event of a path, another one
/// within the window is not handled, and one after the window is.
pub proof fn law_debounce_window(m: SeenModel, path: Seq<char>, first: u128, second: u128)
    requires
        m.window > 0,
        first <= second,
    ensures
        !m.times.contains_key(path) ==> !too_soon(m, path, first),
        second - first <= m.window ==> too_soon(seen(m, path, first), path, second),
        second - first > m.window ==> !too_soon(seen(m, path, first), path, second),
{
    let times = m.times.insert(path, first);
    assert(stale_age(m.window) > 0);
    assert(!aged(times[path], first, stale_age(m.window)));
    assert(young_entries(times, first, stale_age(m.window)).contains_key(path));
}

/// Right after a prune every entry left is younger than the stale age, and no
/// entry that young was dropped.
pub proof fn law_prune_drops_exactly_stale_entries(
    m: SeenModel,
    path: Seq<char>,
    now: u128,
    other: Seq<char>,
)
    requires
        m.events_since_prune + 1 >= m.prune_interval,
        other != path,
    ensures
        seen(m, path, now).times.contains_key(other) <==> m.times.contains_key(other) && !aged(
            m.times[other],
            now,
            stale_age(m.window),
        ),
        seen(m, path, now).events_since_prune == 0,
{
}

/// Events of one path never suppress those of another, nor do they let one through
/// that was suppressed: not even by pruning, as long as the stale age lies beyond
/// the window.
pub proof fn law_paths_are_independent(
    m: SeenModel,
    path: Seq<char>,
    other: Seq<char>,
    now: u128,
    later: u128,
)
    requires
        m.window > 0,
        path != other,
    ensures
        too_soon(seen(m, path, now), other, later) ==> too_soon(m, other, later),
        later >= now && stale_age(m.window) > m.window && too_soon(m, other, later) ==> too_soon(
            seen(m, path, now),
            other,
            later,
        ),
{
    let times = m.times.insert(path, now);
    if m.times.contains_key(other) && later >= now && time_since(m.times[other], later) <= m.window
        && stale_age(m.window) > m.window {
        assert(!aged(times[other], now, stale_age(m.window)));
    }
}

/// How browser clients are told of a change.
#[derive(Debug, Clone, Copy, PartialEq, Eq, Structural)]
pub enum Notice {
    /// A full-page reload.
    Reload,
    /// The new content of the file as CSS.
    InjectCss,
}

/// The extension of a path in lower case.
pub open spec fn lower_extension(path: Seq<char>) -> Seq<char> {
    ascii_lower_all(extension(path))
}

/// How clients are told of a change of `path`, if at all.
pub open spec fn notice_for(mode: NotifyMode, path: Seq<char>) -> Option<Notice> {
    match mode {
        NotifyMode::Off => None,
        NotifyMode::Reload => Some(Notice::Reload),
        NotifyMode::InjectCss => Some(Notice::InjectCss),
        NotifyMode::Auto => if lower_extension(path) == "css"@ {
            Some(Notice::InjectCss)
        } else {
            Some(Notice::Reload)
        },
    }
}

/// Determines how clients are told of a change.
pub fn notify_clients(mode: NotifyMode, path: &str) -> (r: Option<Notice>)
    ensures
        r == notice_for(mode, path@),
{
    match mode {
        NotifyMode::Off => None,
        NotifyMode::Reload => Some(Notice::Reload),
        NotifyMode::InjectCss => Some(Notice::InjectCss),
        NotifyMode::Auto => {
            let ext = lower_ascii(extension_of(path).as_str());
            if same_text(ext.as_str(), "css") {
                Some(Notice::InjectCss)
            } else {
                Some(Notice::Reload)
            }
        },
    }
}

/// The message that asks for a full-page reload.
pub open spec fn reload_model() -> JsonModel {
    JsonModel::Object(map!["type"@ => JsonModel::Text("reload"@)])
}

/// The message that carries the new content of a CSS file.
pub open spec fn inject_css_model(path: Seq<char>, content: Seq<u8>) -> JsonModel {
    JsonModel::Object(
        map![
            "type"@ => JsonModel::Text("inject-css"@),
            "path"@ => JsonModel::Text(path),
            "content"@ => JsonModel::Text(base64_text(content)),
        ],
    )
}

/// The message about a CSS file with the given content; a file that could not
/// be read causes a reload instead.
pub open spec fn css_model(path: Seq<char>, content: Option<Seq<u8>>) -> JsonModel {
    match content {
        Some(bytes) => inject_css_model(path, bytes),
        None => reload_model(),
    }
}

/// The message that asks for a full-page reload.  It is JSON that reads back as
/// that message.
pub fn broadcast_reload() -> (msg: String)
    ensures
        msg@ == json_text(reload_model()),
        json_parse(msg@) == Some(reload_model()),
{
    let mut members = new_members();
    add_member(&mut members, "type", text_value("reload"));
    let v = object_value(members);
    proof {
        assert(value_model(v) == reload_model());
        lemma_flat_is_plain(reload_model());
    }
    json_string(&v)
}

/// The message about a CSS file whose content is `content`, or could not be
/// read.  It is JSON that reads back as that message.
pub fn broadcast_inject_css(normalized: &str, content: Option<&[u8]>) -> (msg: String)
    ensures
        msg@ == json_text(css_model(normalized@, crate::diff::bytes_of(content))),
        json_parse(msg@) == Some(css_model(normalized@, crate::diff::bytes_of(content))),
{
    match content {
        Some(bytes) => {
            let mut members = new_members();
            add_member(&mut members, "type", text_value("inject-css"));
            add_member(&mut members, "path", text_value(normalized));
            let encoded = base64_encode(bytes);
            add_member(&mut members, "content", text_value(encoded.as_str()));
            let v = object_value(members);
            proof {
                assert(value_model(v) == inject_css_model(normalized@, bytes@));
                lemma_flat_is_plain(inject_css_model(normalized@, bytes@));
            }
            json_string(&v)
        },
        None => broadcast_reload(),
    }
}

/// The message that tells the clients of a change.
pub open spec fn notice_model(
    notice: Notice,
    path: Seq<char>,
    content: Option<Seq<u8>>,
) -> JsonModel {
    match notice {
        Notice::Reload => reload_model(),
        Notice::InjectCss => css_model(path, content),
    }
}

/// The message that tells the clients of a change of the file under
/// `normalized`, whose content is `content` or could not be read.
pub fn notice_message(notice: Notice, normalized: &str, content: Option<&[u8]>) -> (msg: String)
    ensures
        msg@ == json_text(notice_model(notice, normalized@, crate::diff::bytes_of(content))),
        json_parse(msg@) == Some(
            notice_model(notice, normalized@, crate::diff::bytes_of(content)),
        ),
{
    match notice {
        Notice::Reload => broadcast_reload(),
        Notice::InjectCss => broadcast_inject_css(normalized, content),
    }
}

/// An object whose members are all texts is plain.
proof fn lemma_flat_is_plain(m: JsonModel)
    requires
        m is Object,
        forall|k: Seq<char>| #[trigger]
            m->Object_0.contains_key(k) ==> m->Object_0[k] is Text,
    ensures
        plain(m),
{
    assert forall|k: Seq<char>| m->Object_0.contains_key(k) implies nested_within(
        #[trigger] m->Object_0[k],
        99,
    ) by {
        assert(m->Object_0[k] is Text);
    }
}

/// A client that decodes the content of an inject-css message has the file: its
/// path, and its bytes.
pub proof fn law_injected_css_is_the_file(path: Seq<char>, content: Seq<u8>)
    ensures
        ({
            let m = inject_css_model(path, content);
            &&& crate::json::text_of_member(m, "type"@) == Some("inject-css"@)
            &&& crate::json::text_of_member(m, "path"@) == Some(path)
            &&& crate::json::text_of_member(m, "content"@) is Some
            &&& crate::encoding::base64_bytes(
                crate::json::text_of_member(m, "content"@)->0,
            ) == content
        }),
{
    crate::encoding::law_base64_round_trip(content);
    reveal_strlit("type");
    reveal_strlit("path");
    reveal_strlit("content");
    assert("type"@[0] == 't' && "path"@[0] == 'p' && "content"@[0] == 'c');
}

/// Something to be done about a change.
#[derive(Debug)]
pub enum Action {
    /// Read the config file again (see [`WorkerContext::reload_configs`]).
    ReloadConfigs,
    /// Record the change of the file under `path` in the diff store.
    RecordDiff { path: String },
    /// Set the state of a config.
    SetStatus { name: String, status: String },
    /// Run a command and wait for it.
    RunCommand { command: String },
    /// Tell the clients of the change of the file under `path`.
    Broadcast { notice: Notice, path: String },
}

/// What an [`Action`] says.
pub enum ActionModel {
    ReloadConfigs,
    RecordDiff(Seq<char>),
    SetStatus(Seq<char>, Seq<char>),
    RunCommand(Seq<char>),
    Broadcast(Notice, Seq<char>),
}

impl View for Action {
    type V = ActionModel;

    open spec fn view(&self) -> ActionModel {
        match *self {
            Action::ReloadConfigs => ActionModel::ReloadConfigs,
            Action::RecordDiff { path } => ActionModel::RecordDiff(path@),
            Action::SetStatus { name, status } => ActionModel::SetStatus(name@, status@),
            Action::RunCommand { command } => ActionModel::RunCommand(command@),
            Action::Broadcast { notice, path } => ActionModel::Broadcast(notice, path@),
        }
    }
}

/// What a list of actions says.
pub open spec fn action_models(actions: Seq<Action>) -> Seq<ActionModel> {
    actions.map_values(|a: Action| a@)
}

/// The state of a config whose command is running.
pub open spec fn reloading() -> Seq<char> {
    "reloading"@
}

/// What a config does about a change that it watches: it is marked as
/// reloading, runs its command on the path of the event, tells the clients and is
/// up to date again.
pub open spec fn config_actions(
    cfg: ConfigEntry,
    shell: Shell,
    path: Seq<char>,
    normalized: Seq<char>,
) -> Seq<ActionModel> {
    let command = match cfg.command(shell, forward_slashes(path)) {
        Some(c) => seq![ActionModel::RunCommand(c)],
        None => Seq::empty(),
    };
    let notice = match notice_for(cfg.notify, path) {
        Some(n) => seq![ActionModel::Broadcast(n, normalized)],
        None => Seq::empty(),
    };
    seq![ActionModel::SetStatus(cfg.name@, reloading())] + command + notice
        + seq![ActionModel::SetStatus(cfg.name@, up_to_date())]
}

/// What the configs do about a change, each that watches the path in turn.
pub open spec fn all_config_actions(
    configs: Seq<ConfigEntry>,
    shell: Shell,
    path: Seq<char>,
    normalized: Seq<char>,
) -> Seq<ActionModel>
    decreases configs.len(),
{
    if configs.len() == 0 {
        Seq::empty()
    } else {
        let before = all_config_actions(configs.drop_last(), shell, path, normalized);
        if configs.last().watches_path(normalized) {
            before + config_actions(configs.last(), shell, path, normalized)
        } else {
            before
        }
    }
}

/// Whether any config watches the path.
pub open spec fn any_watches(configs: Seq<ConfigEntry>, normalized: Seq<char>) -> bool {
    exists|i: int| 0 <= i < configs.len() && (#[trigger] configs[i]).watches_path(normalized)
}

/// What is done about a change that no config watches: CSS is injected, HTML
/// reloaded, and for any other file the command template is run on the path of
/// the event and the page reloaded.
pub open spec fn fallback_actions(
    shell: Shell,
    template: Seq<char>,
    path: Seq<char>,
    normalized: Seq<char>,
) -> Seq<ActionModel> {
    let ext = lower_extension(path);
    if ext == "css"@ {
        seq![ActionModel::Broadcast(Notice::InjectCss, normalized)]
    } else if ext == "html"@ || ext == "htm"@ {
        seq![ActionModel::Broadcast(Notice::Reload, normalized)]
    } else {
        seq![
            ActionModel::RunCommand(filled_in(shell, template, forward_slashes(path))),
            ActionModel::Broadcast(Notice::Reload, normalized),
        ]
    }
}

/// What the worker needs to know to handle changes.
pub struct WorkerContext {
    /// Directory that is watched.
    pub watch_root: String,
    /// Path of the config file.
    pub config_path: String,
    /// Which paths are handled at all.
    pub filter: PathFilter,
    /// The loaded configs, with compiled watch patterns.
    pub configs: Vec<ConfigEntry>,
    /// Command template for changes that no config watches.
    pub cmd_template: String,
    /// The shell that runs the commands.
    pub shell: Shell,
    /// Suppresses repeated events.
    pub debouncer: Debouncer,
    /// Whether changes are recorded in a diff store.
    pub record_diffs: bool,
}

/// Whether changes of a path are handled: the filter lets it through.  A default
/// exclude does not apply to a path that a config watches.
pub open spec fn handles(ctx: WorkerContext, normalized: Seq<char>) -> bool {
    admitted(
        ctx.filter.includes(),
        ctx.filter.excludes(),
        ctx.filter.defaults(),
        any_watches(ctx.configs@, normalized),
        normalized,
    )
}

/// The actions for a change that passed the debouncer.
///
/// A change of the config file has the configs read again and nothing else.  A
/// path that the filter does not let through causes nothing.  Any other change is
/// recorded, if diffs are kept, and handled by the configs that watch it, or by
/// the fallback if there are none.
pub open spec fn plan(ctx: WorkerContext, path: Seq<char>) -> Seq<ActionModel> {
    let normalized = relativized(path, ctx.watch_root@);
    if same_components(path, ctx.config_path@) {
        seq![ActionModel::ReloadConfigs]
    } else if !handles(ctx, normalized) {
        Seq::empty()
    } else {
        let record = if ctx.record_diffs {
            seq![ActionModel::RecordDiff(normalized)]
        } else {
            Seq::empty()
        };
        record + if any_watches(ctx.configs@, normalized) {
            all_config_actions(ctx.configs@, ctx.shell, path, normalized)
        } else {
            fallback_actions(ctx.shell, ctx.cmd_template@, path, normalized)
        }
    }
}

/// Whether any of the configs watches the path.
fn is_watched(configs: &Vec<ConfigEntry>, normalized: &str) -> (r: bool)
    ensures
        r == any_watches(configs@, normalized@),
{
    let mut i: usize = 0;
    while i < configs.len()
        invariant
            i <= configs@.len(),
            forall|j: int|
                0 <= j < i ==> !(#[trigger] configs@[j]).watches_path(normalized@),
        decreases configs@.len() - i,
    {
        if configs[i].matches(normalized) {
            assert(configs@[i as int].watches_path(normalized@));
            return true;
        }
        i = i + 1;
    }
    false
}

/// Adds what a config does about a change to `out`.
fn push_config_actions(
    cfg: &ConfigEntry,
    shell: Shell,
    path: &str,
    normalized: &str,
    out: &mut Vec<Action>,
)
    ensures
        action_models(final(out)@) == action_models(old(out)@) + config_actions(
            *cfg,
            shell,
            path@,
            normalized@,
        ),
{
    let ghost start = action_models(out@);
    out.push(Action::SetStatus { name: cfg.name.clone(), status: "reloading".to_owned() });
    let ghost marked = start.push(ActionModel::SetStatus(cfg.name@, reloading()));
    assert(action_models(out@) =~= marked);
    let ghost command = match cfg.command(shell, forward_slashes(path@)) {
        Some(c) => seq![ActionModel::RunCommand(c)],
        None => Seq::<ActionModel>::empty(),
    };
    let full = normalize_path(path);
    match cfg.command_in(shell, full.as_str()) {
        Some(c) => out.push(Action::RunCommand { command: c }),
        None => {},
    }
    assert(action_models(out@) =~= marked + command);
    let ghost notice = match notice_for(cfg.notify, path@) {
        Some(n) => seq![ActionModel::Broadcast(n, normalized@)],
        None => Seq::<ActionModel>::empty(),
    };
    match notify_clients(cfg.notify, path) {
        Some(n) => out.push(Action::Broadcast { notice: n, path: normalized.to_owned() }),
        None => {},
    }
    assert(action_models(out@) =~= marked + command + notice);
    out.push(Action::SetStatus { name: cfg.name.clone(), status: "up to date".to_owned() });
    proof {
        assert(action_models(out@) =~= (marked + command + notice).push(
            ActionModel::SetStatus(cfg.name@, up_to_date()),
        ));
        assert(action_models(out@) =~= start + config_actions(*cfg, shell, path@, normalized@));
    }
}

/// Adds what is done about a change that no config watches to `out`.
fn push_fallback_actions(
    shell: Shell,
    template: &str,
    path: &str,
    normalized: &str,
    out: &mut Vec<Action>,
)
    ensures
        action_models(final(out)@) == action_models(old(out)@) + fallback_actions(
            shell,
            template@,
            path@,
            normalized@,
        ),
{
    let ghost start = action_models(out@);
    let ext = lower_ascii(extension_of(path).as_str());
    if same_text(ext.as_str(), "css") {
        out.push(Action::Broadcast { notice: Notice::InjectCss, path: normalized.to_owned() });
        assert(action_models(out@) =~= start + fallback_actions(
            shell,
            template@,
            path@,
            normalized@,
        ));
    } else if same_text(ext.as_str(), "html") || same_text(ext.as_str(), "htm") {
        out.push(Action::Broadcast { notice: Notice::Reload, path: normalized.to_owned() });
        assert(action_models(out@) =~= start + fallback_actions(
            shell,
            template@,
            path@,
            normalized@,
        ));
    } else {
        let full = normalize_path(path);
        out.push(Action::RunCommand { command: fill_in(shell, template, full.as_str()) });
        out.push(Action::Broadcast { notice: Notice::Reload, path: normalized.to_owned() });
        assert(action_models(out@) =~= start + fallback_actions(
            shell,
            template@,
            path@,
            normalized@,
        ));
    }
}

/// Whether everything but the debouncer stayed as it was.
pub open spec fn same_setup(a: WorkerContext, b: WorkerContext) -> bool {
    &&& a.watch_root == b.watch_root
    &&& a.config_path == b.config_path
    &&& a.filter == b.filter
    &&& a.configs == b.configs
    &&& a.cmd_template == b.cmd_template
    &&& a.shell == b.shell
    &&& a.record_diffs == b.record_diffs
}

impl WorkerContext {
    /// The actions for a change of `path` that passed the debouncer.
    pub fn actions_for(&self, path: &str) -> (out: Vec<Action>)
        ensures
            action_models(out@) == plan(*self, path@),
    {
        let mut out: Vec<Action> = Vec::new();
        if same_path(path, self.config_path.as_str()) {
            out.push(Action::ReloadConfigs);
            assert(action_models(out@) =~= seq![ActionModel::ReloadConfigs]);
            return out;
        }
        let normalized = relativize_to_root(path, self.watch_root.as_str());
        let watched: bool = is_watched(&self.configs, normalized.as_str());
        if !self.filter.is_admitted(normalized.as_str(), watched) {
            assert(action_models(out@) =~= Seq::<ActionModel>::empty());
            return out;
        }
        if self.record_diffs {
            out.push(Action::RecordDiff { path: normalized.clone() });
        }
        let ghost record = action_models(out@);
        proof {
            if self.record_diffs {
                assert(record =~= seq![ActionModel::RecordDiff(normalized@)]);
            } else {
                assert(record =~= Seq::<ActionModel>::empty());
            }
        }
        if !watched {
            push_fallback_actions(
                self.shell,
                self.cmd_template.as_str(),
                path,
                normalized.as_str(),
                &mut out,
            );
            return out;
        }
        let mut i: usize = 0;
        assert(self.configs@.take(0) =~= Seq::<ConfigEntry>::empty());
        assert(record + Seq::<ActionModel>::empty() =~= record);
        while i < self.configs.len()
            invariant
                i <= self.configs@.len(),
                action_models(out@) == record + all_config_actions(
                    self.configs@.take(i as int),
                    self.shell,
                    path@,
                    normalized@,
                ),
            decreases self.configs@.len() - i,
        {
            let cfg: &ConfigEntry = &self.configs[i];
            let ghost next = self.configs@.take(i + 1);
            proof {
                assert(next.drop_last() =~= self.configs@.take(i as int));
                assert(next.last() == *cfg);
            }
            if cfg.matches(normalized.as_str()) {
                push_config_actions(cfg, self.shell, path, normalized.as_str(), &mut out);
                assert(action_models(out@) =~= record + all_config_actions(
                    next,
                    self.shell,
                    path@,
                    normalized@,
                ));
            }
            i = i + 1;
        }
        assert(self.configs@.take(self.configs@.len() as int) =~= self.configs@);
        out
    }

    /// Handles an event of `path` at the time `now` (nanoseconds): returns what
    /// is to be done, in order.  An event that follows another one of its path
    /// within the debounce window causes nothing.
    pub fn handle_path(&mut self, path: &str, now: u128) -> (out: Vec<Action>)
        requires
            old(self).debouncer.wf(),
        ensures
            final(self).debouncer.wf(),
            same_setup(*old(self), *final(self)),
            final(self).debouncer@ == seen(old(self).debouncer@, path@, now),
            action_models(out@) == if too_soon(old(self).debouncer@, path@, now) {
                Seq::empty()
            } else {
                plan(*old(self), path@)
            },
    {
        if !self.debouncer.should_handle(path, now) {
            let out: Vec<Action> = Vec::new();
            assert(action_models(out@) =~= Seq::<ActionModel>::empty());
            return out;
        }
        self.actions_for(path)
    }

    /// Takes over the entries read from the config file, with their watch
    /// patterns compiled, and lists them as up to date.  If there are none, the
    /// previous configs stay.  Returns whether the entries were taken over.
    pub fn reload_configs(&mut self, parsed: Vec<ConfigEntry>, statuses: &mut StatusMap) -> (r: bool)
        requires
            old(statuses).wf(),
        ensures
            final(statuses).wf(),
            r == (parsed@.len() > 0),
            !r ==> *final(self) == *old(self) && final(statuses)@ == old(statuses)@,
            r ==> {
                &&& same_setup(
                    WorkerContext { configs: final(self).configs, ..*old(self) },
                    *final(self),
                )
                &&& final(self).debouncer == old(self).debouncer
                &&& compiled_entries(parsed@, final(self).configs@)
                &&& final(statuses)@ == all_up_to_date(names_of(parsed@))
            },
    {
        match try_reload_configs(parsed) {
            None => false,
            Some(configs) => {
                let names = config_names(&configs);
                *statuses = new_status_map(names);
                self.configs = configs;
                proof {
                    assert(names_of(configs@) =~= names_of(parsed@)) by {
                        assert forall|i: int| 0 <= i < configs@.len() implies names_of(configs@)[i]
                            == names_of(parsed@)[i] by {
                            assert(compiled_entry(parsed@[i], configs@[i]));
                        }
                    }
                }
                true
            },
        }
    }
}

/// The names of some entries.
pub open spec fn names_of(configs: Seq<ConfigEntry>) -> Seq<Seq<char>> {
    configs.map_values(|c: ConfigEntry| c.name@)
}

/// Whether `after` are the entries of `before` with their watch patterns
/// compiled.
pub open spec fn compiled_entries(before: Seq<ConfigEntry>, after: Seq<ConfigEntry>) -> bool {
    &&& after.len() == before.len()
    &&& forall|i: int| 0 <= i < after.len() ==> compiled_entry(before[i], #[trigger] after[i])
}

/// The names of some entries.
pub fn config_names(configs: &Vec<ConfigEntry>) -> (r: Vec<String>)
    ensures
        texts(r@) == names_of(configs@),
{
    let mut r: Vec<String> = Vec::new();
    let mut i: usize = 0;
    while i < configs.len()
        invariant
            i <= configs@.len(),
            texts(r@) =~= names_of(configs@).take(i as int),
        decreases configs@.len() - i,
    {
        let ghost before = texts(r@);
        r.push(configs[i].name.clone());
        proof {
            assert(texts(r@) =~= before.push(configs@[i as int].name@));
            assert(names_of(configs@).take(i + 1) =~= names_of(configs@).take(i as int).push(
                configs@[i as int].name@,
            ));
        }
        i = i + 1;
    }
    assert(names_of(configs@).take(configs@.len() as int) =~= names_of(configs@));
    r
}

/// Compiles the watch patterns of some entries.
pub fn compile_all(entries: Vec<ConfigEntry>) -> (r: Vec<ConfigEntry>)
    ensures
        compiled_entries(entries@, r@),
{
    let mut r: Vec<ConfigEntry> = Vec::new();
    for entry in it: entries
        invariant
            it.seq() == entries@,
            r@.len() == it.index(),
            forall|i: int| 0 <= i < r@.len() ==> compiled_entry(entries@[i], #[trigger] r@[i]),
    {
        let mut compiled = entry;
        compiled.compile_watch_set();
        r.push(compiled);
    }
    r
}

/// The entries read from the config file with their watch patterns compiled;
/// `None` if there are none, in which case the previous ones are to stay.
pub fn try_reload_configs(parsed: Vec<ConfigEntry>) -> (r: Option<Vec<ConfigEntry>>)
    ensures
        r is None <==> parsed@.len() == 0,
        r is Some ==> compiled_entries(parsed@, r->0@),
{
    if parsed.len() == 0 {
        return None;
    }
    Some(compile_all(parsed))
}

/// What the file-system watcher reports.
#[derive(Debug)]
pub enum Incoming {
    /// Something happened to the given paths.
    Event { kind: EventKind, paths: Vec<String> },
    /// The watcher has a problem.
    Error,
}

/// How many events the worker has seen, as far as the counters go.
#[derive(Debug, Clone, Copy, PartialEq, Eq, Structural)]
pub struct WorkerStats {
    /// Reports received.
    pub received: u64,
    /// Paths handled.
    pub processed: u64,
    /// Problems reported.
    pub errors: u64,
    /// Paths whose handling failed.
    pub panics: u64,
}

/// One more, as far as the counter goes.
pub open spec fn counted(n: u64) -> u64 {
    if n == u64::MAX {
        n
    } else {
        (n + 1) as u64
    }
}

/// The counters after a report, which may be a problem.
pub open spec fn after_report(stats: WorkerStats, problem: bool) -> WorkerStats {
    WorkerStats {
        received: counted(stats.received),
        errors: if problem {
            counted(stats.errors)
        } else {
            stats.errors
        },
        ..stats
    }
}

/// Whether the paths of a report are to be handled.
pub open spec fn worth_handling(incoming: Incoming) -> bool {
    incoming is Event && affects_data(incoming->kind)
}

/// The counters after a path was handled, successfully or not.
pub open spec fn after_handling(stats: WorkerStats, succeeded: bool) -> WorkerStats {
    if succeeded {
        WorkerStats { processed: counted(stats.processed), ..stats }
    } else {
        WorkerStats { panics: counted(stats.panics), ..stats }
    }
}

/// Every report counts as one, a problem as one more problem; a handled path counts as handled
/// or failed, and never as both.  A problem has nothing to be handled.
pub proof fn law_outcomes_are_counted_once(stats: WorkerStats, incoming: Incoming, succeeded: bool)
    requires
        stats.received < u64::MAX,
        stats.processed < u64::MAX,
        stats.errors < u64::MAX,
        stats.panics < u64::MAX,
    ensures
        ({
            let r = after_report(stats, incoming is Error);
            let h = after_handling(stats, succeeded);
            &&& r.received == stats.received + 1
            &&& incoming is Error ==> r.errors == stats.errors + 1 && !worth_handling(incoming)
            &&& incoming is Event ==> r.errors == stats.errors
            &&& r.processed == stats.processed && r.panics == stats.panics
            &&& h.processed + h.panics == stats.processed + stats.panics + 1
            &&& succeeded ==> h.panics == stats.panics
            &&& !succeeded ==> h.processed == stats.processed
            &&& h.received == stats.received && h.errors == stats.errors
        }),
{
}

impl WorkerStats {
    /// Nothing seen yet.
    pub fn new() -> (s: Self)
        ensures
            s == (WorkerStats { received: 0, processed: 0, errors: 0, panics: 0 }),
    {
        WorkerStats { received: 0, processed: 0, errors: 0, panics: 0 }
    }

    /// Counts a report, and returns whether its paths are to be handled: it is
    /// an event that affects data.
    pub fn on_incoming(&mut self, incoming: &Incoming) -> (handle: bool)
        ensures
            *final(self) == after_report(*old(self), *incoming is Error),
            handle == worth_handling(*incoming),
            *final(self) == (WorkerStats {
                received: counted(old(self).received),
                errors: if *incoming is Error {
                    counted(old(self).errors)
                } else {
                    old(self).errors
                },
                ..*old(self)
            }),
            handle == match *incoming {
                Incoming::Event { kind, .. } => affects_data(kind),
                Incoming::Error => false,
            },
    {
        self.received = self.received.saturating_add(1);
        match incoming {
            Incoming::Event { kind, paths: _ } => is_relevant_event(kind),
            Incoming::Error => {
                self.errors = self.errors.saturating_add(1);
                false
            },
        }
    }

    /// Counts a path whose handling succeeded or failed.  A failure does not
    /// end the worker.
    pub fn on_handled(&mut self, succeeded: bool)
        ensures
            *final(self) == after_handling(*old(self), succeeded),
            *final(self) == if succeeded {
                WorkerStats { processed: counted(old(self).processed), ..*old(self) }
            } else {
                WorkerStats { panics: counted(old(self).panics), ..*old(self) }
            },
    {
        if succeeded {
            self.processed = self.processed.saturating_add(1);
        } else {
            self.panics = self.panics.saturating_add(1);
        }
    }
}

/// The counters after some reports, of which only the number and the problems
/// among them count.
pub open spec fn after_reports(stats: WorkerStats, problems: Seq<bool>) -> WorkerStats
    decreases problems.len(),
{
    if problems.len() == 0 {
        stats
    } else {
        let before = after_reports(stats, problems.drop_last());
        WorkerStats {
            received: counted(before.received),
            errors: if problems.last() {
                counted(before.errors)
            } else {
                before.errors
            },
            ..before
        }
    }
}

/// Every report is counted once, whether it is a problem or not, as long as the
/// counter has room.
pub proof fn law_every_report_is_counted(stats: WorkerStats, problems: Seq<bool>)
    requires
        stats.received + problems.len() <= u64::MAX,
        stats.errors <= stats.received,
    ensures
        after_reports(stats, problems).received == stats.received + problems.len(),
        after_reports(stats, problems).errors <= after_reports(stats, problems).received,
    decreases problems.len(),
{
    if problems.len() > 0 {
        law_every_report_is_counted(stats, problems.drop_last());
    }
}

/// Nanoseconds in a millisecond.
pub const NANOS_PER_MS: u128 = 1_000_000;

/// The name of the config file.
pub const CONFIG_FILE: &'static str = "quay.yaml";

/// What the watcher is started with.
pub struct WatcherParams {
    /// Directory to watch.
    pub watch_root: String,
    /// Command template with optional `{path}` placeholder.
    pub cmd_template: String,
    /// Debounce window in milliseconds.
    pub debounce_ms: u64,
    /// When `true`, skip running the command on startup.
    pub skip_initial_run: bool,
    /// Global include/exclude path filter.
    pub filter: PathFilter,
    /// Loaded config entries (with compiled watch patterns).
    pub configs: Vec<ConfigEntry>,
    /// The shell that runs the commands.
    pub shell: Shell,
    /// Optional timeout per command, in milliseconds.
    pub cmd_timeout_ms: Option<u64>,
    /// Whether changes are recorded in a diff store.
    pub record_diffs: bool,
}

/// What the watcher starts out with.
pub struct Started {
    /// The worker's context.
    pub context: WorkerContext,
    /// The command to run on startup, as it stands.
    pub startup_command: Option<String>,
    /// How long a command may run, in nanoseconds.
    pub cmd_timeout: Option<u128>,
}

/// A time in milliseconds as nanoseconds.
pub open spec fn nanos(ms: u64) -> u128 {
    (ms * NANOS_PER_MS) as u128
}

/// The path of the config file in a directory.
pub open spec fn config_path_text(root: Seq<char>) -> Seq<char> {
    if root.len() == 0 || root.last() == '/' {
        root + CONFIG_FILE@
    } else {
        root + seq!['/'] + CONFIG_FILE@
    }
}

/// The path of the config file in a directory.
pub fn config_path_in(root: &str) -> (r: String)
    ensures
        r@ == config_path_text(root@),
{
    let mut r: String = root.to_owned();
    let n: usize = root.unicode_len();
    if n > 0 && root.get_char(n - 1) != '/' {
        r.push('/');
    }
    r.append(CONFIG_FILE);
    assert(r@ =~= config_path_text(root@));
    r
}

/// Prepares the worker: its context, the command to run on startup (unless that
/// is to be skipped) and the time that a command may take.
pub fn start(params: WatcherParams, config_path: String) -> (s: Started)
    ensures
        s.context.watch_root@ == params.watch_root@,
        s.context.config_path@ == config_path@,
        s.context.filter == params.filter,
        s.context.configs == params.configs,
        s.context.cmd_template@ == params.cmd_template@,
        s.context.shell == params.shell,
        s.context.record_diffs == params.record_diffs,
        s.context.debouncer.wf(),
        s.context.debouncer@ == (SeenModel {
            window: clamped_window(nanos(params.debounce_ms)),
            paths: Seq::empty(),
            times: Map::empty(),
            events_since_prune: 0,
            prune_interval: DEFAULT_PRUNE_INTERVAL,
        }),
        opt_text(s.startup_command) == if params.skip_initial_run {
            None
        } else {
            Some(params.cmd_template@)
        },
        s.cmd_timeout == match params.cmd_timeout_ms {
            Some(ms) => Some(nanos(ms)),
            None => None,
        },
{
    let startup_command: Option<String> = if params.skip_initial_run {
        None
    } else {
        Some(params.cmd_template.clone())
    };
    let cmd_timeout: Option<u128> = match params.cmd_timeout_ms {
        Some(ms) => Some(ms as u128 * NANOS_PER_MS),
        None => None,
    };
    let window: u128 = params.debounce_ms as u128 * NANOS_PER_MS;
    Started {
        context: WorkerContext {
            watch_root: params.watch_root,
            config_path,
            filter: params.filter,
            configs: params.configs,
            cmd_template: params.cmd_template,
            shell: params.shell,
            debouncer: Debouncer::new(window),
            record_diffs: params.record_diffs,
        },
        startup_command,
        cmd_timeout,
    }
}

/// Events that only report an access or a change of metadata are ignored.
pub proof fn law_metadata_and_access_are_ignored(access: AccessKind, metadata: MetadataKind)
    ensures
        !affects_data(EventKind::Access(access)),
        !affects_data(EventKind::Modify(ModifyKind::Metadata(metadata))),
{
}

/// A change of the config file has the configs read again and nothing else: no
/// command is run and no client told.
pub proof fn law_config_change_only_reloads_configs(ctx: WorkerContext, path: Seq<char>)
    requires
        same_components(path, ctx.config_path@),
    ensures
        plan(ctx, path) == seq![ActionModel::ReloadConfigs],
{
}

/// A path that the filter does not let through causes nothing, unless it is the
/// config file: it is not recorded either.
pub proof fn law_excluded_path_causes_nothing(ctx: WorkerContext, path: Seq<char>)
    requires
        !same_components(path, ctx.config_path@),
        !handles(ctx, relativized(path, ctx.watch_root@)),
    ensures
        plan(ctx, path) == Seq::<ActionModel>::empty(),
{
}

/// A default exclude does not apply to a path that a config watches: without
/// include patterns such a path is handled by the configs that watch it, unless an
/// exclude pattern of the user matches it.
pub proof fn law_watched_path_is_not_excluded_by_default(ctx: WorkerContext, path: Seq<char>)
    requires
        !same_components(path, ctx.config_path@),
        ctx.filter.includes() is None,
        any_watches(ctx.configs@, relativized(path, ctx.watch_root@)),
    ensures
        ({
            let normalized = relativized(path, ctx.watch_root@);
            let actions = all_config_actions(ctx.configs@, ctx.shell, path, normalized);
            plan(ctx, path) == if matched(ctx.filter.excludes(), normalized) {
                Seq::empty()
            } else if ctx.record_diffs {
                seq![ActionModel::RecordDiff(normalized)] + actions
            } else {
                actions
            }
        }),
{
    let normalized = relativized(path, ctx.watch_root@);
    let actions = all_config_actions(ctx.configs@, ctx.shell, path, normalized);
    assert(Seq::<ActionModel>::empty() + actions =~= actions);
}

/// The states after the actions were performed.
pub open spec fn states_after(
    states: Map<Seq<char>, Seq<char>>,
    actions: Seq<ActionModel>,
) -> Map<Seq<char>, Seq<char>>
    decreases actions.len(),
{
    if actions.len() == 0 {
        states
    } else {
        let before = states_after(states, actions.drop_last());
        match actions.last() {
            ActionModel::SetStatus(name, state) => before.insert(name, state),
            _ => before,
        }
    }
}

/// Performing two lists of actions one after the other.
proof fn lemma_states_after_both(
    states: Map<Seq<char>, Seq<char>>,
    a: Seq<ActionModel>,
    b: Seq<ActionModel>,
)
    ensures
        states_after(states, a + b) == states_after(states_after(states, a), b),
    decreases b.len(),
{
    if b.len() == 0 {
        assert(a + b =~= a);
    } else {
        lemma_states_after_both(states, a, b.drop_last());
        assert((a + b).drop_last() =~= a + b.drop_last());
    }
}

/// A list of actions without a state to set.
proof fn lemma_states_untouched(states: Map<Seq<char>, Seq<char>>, a: Seq<ActionModel>)
    requires
        forall|i: int| 0 <= i < a.len() ==> !((#[trigger] a[i]) is SetStatus),
    ensures
        states_after(states, a) == states,
    decreases a.len(),
{
    if a.len() > 0 {
        let rest = a.drop_last();
        assert forall|i: int| 0 <= i < rest.len() implies !((#[trigger] rest[i]) is SetStatus) by {
            assert(rest[i] == a[i]);
        }
        lemma_states_untouched(states, rest);
        assert(!(a[a.len() - 1] is SetStatus));
    }
}

/// What a config does leaves it up to date and the others as they were.
proof fn lemma_states_after_config(
    states: Map<Seq<char>, Seq<char>>,
    cfg: ConfigEntry,
    shell: Shell,
    path: Seq<char>,
    normalized: Seq<char>,
)
    ensures
        states_after(states, config_actions(cfg, shell, path, normalized)) == states.insert(
            cfg.name@,
            up_to_date(),
        ),
{
    let command = match cfg.command(shell, forward_slashes(path)) {
        Some(c) => seq![ActionModel::RunCommand(c)],
        None => Seq::<ActionModel>::empty(),
    };
    let notice = match notice_for(cfg.notify, path) {
        Some(n) => seq![ActionModel::Broadcast(n, normalized)],
        None => Seq::<ActionModel>::empty(),
    };
    let first = seq![ActionModel::SetStatus(cfg.name@, reloading())];
    let last = seq![ActionModel::SetStatus(cfg.name@, up_to_date())];
    let marked = states.insert(cfg.name@, reloading());
    assert(first.drop_last() =~= Seq::<ActionModel>::empty());
    assert(states_after(states, Seq::<ActionModel>::empty()) == states);
    assert(states_after(states, first) == marked);
    lemma_states_after_both(states, first, command);
    lemma_states_untouched(marked, command);
    lemma_states_after_both(states, first + command, notice);
    lemma_states_untouched(marked, notice);
    lemma_states_after_both(states, first + command + notice, last);
    assert(last.drop_last() =~= Seq::<ActionModel>::empty());
    assert(states_after(marked, Seq::<ActionModel>::empty()) == marked);
    assert(states_after(marked, last) == marked.insert(cfg.name@, up_to_date()));
    assert(marked.insert(cfg.name@, up_to_date()) =~= states.insert(cfg.name@, up_to_date()));
}

/// Whether a config with the given name watches the path.
pub open spec fn named_config_watches(
    configs: Seq<ConfigEntry>,
    name: Seq<char>,
    normalized: Seq<char>,
) -> bool {
    exists|i: int|
        0 <= i < configs.len() && (#[trigger] configs[i]).watches_path(normalized)
            && configs[i].name@ == name
}

proof fn lemma_states_after_configs(
    states: Map<Seq<char>, Seq<char>>,
    configs: Seq<ConfigEntry>,
    shell: Shell,
    path: Seq<char>,
    normalized: Seq<char>,
    name: Seq<char>,
)
    ensures
        ({
            let after = states_after(states, all_config_actions(configs, shell, path, normalized));
            if named_config_watches(configs, name, normalized) {
                after.contains_key(name) && after[name] == up_to_date()
            } else {
                after.contains_key(name) == states.contains_key(name) && (states.contains_key(name)
                    ==> after[name] == states[name])
            }
        }),
    decreases configs.len(),
{
    if configs.len() > 0 {
        let rest = configs.drop_last();
        let cfg = configs.last();
        lemma_states_after_configs(states, rest, shell, path, normalized, name);
        if named_config_watches(rest, name, normalized) {
            let i = choose|i: int|
                0 <= i < rest.len() && (#[trigger] rest[i]).watches_path(normalized)
                    && rest[i].name@ == name;
            assert(configs[i].watches_path(normalized));
        }
        if named_config_watches(configs, name, normalized) && !(cfg.watches_path(normalized)
            && cfg.name@ == name) {
            let i = choose|i: int|
                0 <= i < configs.len() && (#[trigger] configs[i]).watches_path(normalized)
                    && configs[i].name@ == name;
            assert(rest[i].watches_path(normalized));
        }
        if cfg.watches_path(normalized) {
            let before = all_config_actions(rest, shell, path, normalized);
            lemma_states_after_both(states, before, config_actions(cfg, shell, path, normalized));
            lemma_states_after_config(states_after(states, before), cfg, shell, path, normalized);
            assert(configs[configs.len() - 1].watches_path(normalized));
        }
    }
}

/// Handling a change leaves every config that watches the path up to date, and
/// the state of any other config as it was.
pub proof fn law_handled_configs_end_up_to_date(
    ctx: WorkerContext,
    path: Seq<char>,
    states: Map<Seq<char>, Seq<char>>,
    name: Seq<char>,
)
    requires
        !same_components(path, ctx.config_path@),
        handles(ctx, relativized(path, ctx.watch_root@)),
    ensures
        ({
            let after = states_after(states, plan(ctx, path));
            if named_config_watches(ctx.configs@, name, relativized(path, ctx.watch_root@)) {
                after.contains_key(name) && after[name] == up_to_date()
            } else {
                after.contains_key(name) == states.contains_key(name) && (states.contains_key(name)
                    ==> after[name] == states[name])
            }
        }),
{
    let normalized = relativized(path, ctx.watch_root@);
    let record = if ctx.record_diffs {
        seq![ActionModel::RecordDiff(normalized)]
    } else {
        Seq::<ActionModel>::empty()
    };
    lemma_states_untouched(states, record);
    if any_watches(ctx.configs@, normalized) {
        let actions = all_config_actions(ctx.configs@, ctx.shell, path, normalized);
        lemma_states_after_both(states, record, actions);
        lemma_states_after_configs(states, ctx.configs@, ctx.shell, path, normalized, name);
    } else {
        let actions = fallback_actions(ctx.shell, ctx.cmd_template@, path, normalized);
        lemma_states_after_both(states, record, actions);
        lemma_states_untouched(states, actions);
        assert(!named_config_watches(ctx.configs@, name, normalized)) by {
            if named_config_watches(ctx.configs@, name, normalized) {
                let i = choose|i: int|
                    0 <= i < ctx.configs@.len() && (#[trigger] ctx.configs@[i]).watches_path(
                        normalized,
                    ) && ctx.configs@[i].name@ == name;
                assert(ctx.configs@[i].watches_path(normalized));
            }
        }
    }
}

/// Whether a command is one of the known templates with the path of the event
/// filled in.
pub open spec fn is_known_command(
    ctx: WorkerContext,
    command: Seq<char>,
    path: Seq<char>,
) -> bool {
    ||| command == filled_in(ctx.shell, ctx.cmd_template@, forward_slashes(path))
    ||| exists|i: int|
        0 <= i < ctx.configs@.len() && (#[trigger] ctx.configs@[i]).command(
            ctx.shell,
            forward_slashes(path),
        ) == Some(command)
}

proof fn lemma_config_commands(
    ctx: WorkerContext,
    n: int,
    path: Seq<char>,
    normalized: Seq<char>,
    i: int,
)
    requires
        0 <= n <= ctx.configs@.len(),
        0 <= i < all_config_actions(ctx.configs@.take(n), ctx.shell, path, normalized).len(),
    ensures
        all_config_actions(
            ctx.configs@.take(n),
            ctx.shell,
            path,
            normalized,
        )[i] matches ActionModel::RunCommand(c) ==> is_known_command(ctx, c, path),
    decreases n,
{
    let configs = ctx.configs@.take(n);
    if n > 0 {
        let rest = ctx.configs@.take(n - 1);
        assert(configs.drop_last() =~= rest);
        assert(configs.last() == ctx.configs@[n - 1]);
        let before = all_config_actions(rest, ctx.shell, path, normalized);
        if i < before.len() {
            lemma_config_commands(ctx, n - 1, path, normalized, i);
        } else {
            let cfg = ctx.configs@[n - 1];
            let own = config_actions(cfg, ctx.shell, path, normalized);
            assert(all_config_actions(configs, ctx.shell, path, normalized)[i] == own[i
                - before.len()]);
            if let ActionModel::RunCommand(c) = own[i - before.len()] {
                assert(cfg.command(ctx.shell, forward_slashes(path)) == Some(c));
            }
        }
    }
}

/// Every command that a change causes is a template of the setup with the path of
/// the event filled in as one escaped word, and nothing else.
pub proof fn law_commands_come_from_templates(ctx: WorkerContext, path: Seq<char>, i: int)
    requires
        0 <= i < plan(ctx, path).len(),
    ensures
        plan(ctx, path)[i] matches ActionModel::RunCommand(c) ==> is_known_command(ctx, c, path),
{
    let normalized = relativized(path, ctx.watch_root@);
    if !same_components(path, ctx.config_path@) && handles(ctx, normalized) {
        let lead: int = if ctx.record_diffs {
            1
        } else {
            0
        };
        if i >= lead && any_watches(ctx.configs@, normalized) {
            let n = ctx.configs@.len() as int;
            assert(ctx.configs@.take(n) =~= ctx.configs@);
            lemma_config_commands(ctx, n, path, normalized, i - lead);
        }
    }
}

/// Creating, removing, renaming and writing affect data, and so does an event or a
/// modification without further detail; one of an unknown kind does not.
pub proof fn law_events_that_affect_data(
    create: CreateKind,
    remove: RemoveKind,
    data: DataChange,
    rename: RenameMode,
)
    ensures
        affects_data(EventKind::Create(create)),
        affects_data(EventKind::Remove(remove)),
        affects_data(EventKind::Modify(ModifyKind::Data(data))),
        affects_data(EventKind::Modify(ModifyKind::Name(rename))),
        affects_data(EventKind::Modify(ModifyKind::Any)),
        affects_data(EventKind::Any),
        !affects_data(EventKind::Modify(ModifyKind::Other)),
        !affects_data(EventKind::Other),
{
}

/// Connecting counts one more, disconnecting one fewer, but never below zero.
pub proof fn law_clients_are_counted_one_by_one(n: usize)
    ensures
        n < usize::MAX ==> count_after_connect(n) == n + 1,
        n > 0 ==> count_after_disconnect(n) == n - 1,
        n == 0 ==> count_after_disconnect(n) == 0,
{
}

/// An event comes too soon exactly if its path was seen and no more than the window has
/// passed since.
pub proof fn law_too_soon(m: SeenModel, path: Seq<char>, now: u128)
    ensures
        too_soon(m, path, now) <==> m.times.contains_key(path) && (now <= m.times[path] || now
            - m.times[path] <= m.window),
{
}

/// Every event is remembered by its time.  Between two prunes no other path is forgotten or
/// touched, and the events are counted; after so many, what was last seen ten windows ago
/// or longer is forgotten.
pub proof fn law_seen_events_are_remembered(
    m: SeenModel,
    path: Seq<char>,
    now: u128,
    other: Seq<char>,
)
    requires
        other != path,
    ensures
        ({
            let r = seen(m, path, now);
            let kept = m.events_since_prune + 1 < m.prune_interval;
            &&& r.window == m.window && r.prune_interval == m.prune_interval
            &&& kept || m.window > 0 ==> r.times.contains_key(path) && r.times[path] == now
            &&& kept ==> {
                &&& r.events_since_prune == m.events_since_prune + 1
                &&& r.times.contains_key(other) == m.times.contains_key(other)
                &&& m.times.contains_key(other) ==> r.times[other] == m.times[other]
                &&& m.paths.contains(path) ==> r.paths == m.paths
                &&& !m.paths.contains(path) ==> r.paths == m.paths.push(path)
            }
            &&& !kept ==> {
                &&& r.events_since_prune == 0
                &&& m.window * 10 <= u128::MAX ==> (r.times.contains_key(other)
                    <==> m.times.contains_key(other) && (now < m.times[other] || now
                    - m.times[other] < m.window * 10))
                &&& r.times.contains_key(other) ==> r.times[other] == m.times[other]
                &&& m.paths.contains(other) && m.times.contains_key(other) ==> (r.paths.contains(
                    other,
                ) <==> r.times.contains_key(other))
                &&& !m.paths.contains(other) ==> !r.paths.contains(other)
            }
        }),
{
    let paths = with_key(m.paths, path);
    let times = m.times.insert(path, now);
    law_new_key_goes_to_the_end(m.paths, path);
    law_young_keys_are_young(paths, times, now, stale_age(m.window), other);
    if m.paths.contains(other) {
        let i = choose|i: int| 0 <= i < m.paths.len() && m.paths[i] == other;
        assert(paths[i] == other);
    }
    if paths.contains(other) {
        let i = choose|i: int| 0 <= i < paths.len() && paths[i] == other;
        assert(m.paths[i] == other);
    }
    assert(stale_age(m.window) > 0 || m.window == 0);
    assert(!aged(now, now, stale_age(m.window)) || m.window == 0);
}

/// How clients are told of a change: as the mode says, and in the mode that decides by the
/// file, CSS is injected and anything else reloaded.
pub proof fn law_notice_follows_the_mode(path: Seq<char>)
    ensures
        notice_for(NotifyMode::Off, path) is None,
        notice_for(NotifyMode::Reload, path) == Some(Notice::Reload),
        notice_for(NotifyMode::InjectCss, path) == Some(Notice::InjectCss),
        ascii_lower_all(extension(path)) == "css"@ ==> notice_for(NotifyMode::Auto, path) == Some(
            Notice::InjectCss,
        ),
        ascii_lower_all(extension(path)) != "css"@ ==> notice_for(NotifyMode::Auto, path) == Some(
            Notice::Reload,
        ),
{
}

/// A reload message says no more than that.  A CSS file that could not be read causes one,
/// and any other is sent with its path and content.
pub proof fn law_messages_say_what_to_do(path: Seq<char>, content: Seq<u8>, any: Option<Seq<u8>>)
    ensures
        crate::json::text_of_member(reload_model(), "type"@) == Some("reload"@),
        reload_model()->Object_0.len() == 1,
        notice_model(Notice::Reload, path, any) == reload_model(),
        notice_model(Notice::InjectCss, path, None) == reload_model(),
        crate::json::text_of_member(
            notice_model(Notice::InjectCss, path, Some(content)),
            "type"@,
        ) == Some("inject-css"@),
        notice_model(Notice::InjectCss, path, Some(content)) == inject_css_model(path, content),
        css_model(path, None) == reload_model(),
        css_model(path, Some(content)) == inject_css_model(path, content),
{
    law_injected_css_is_the_file(path, content);
    let members = reload_model()->Object_0;
    let none = Map::<Seq<char>, JsonModel>::empty();
    assert(members == none.insert("type"@, JsonModel::Text("reload"@)));
    assert(none.len() == 0);
}

/// A config that watches a change is marked as reloading first, runs its command then, tells
/// the clients after that, and is up to date at the end.
pub proof fn law_config_acts_in_order(
    cfg: ConfigEntry,
    shell: Shell,
    path: Seq<char>,
    normalized: Seq<char>,
    i: int,
    j: int,
)
    ensures
        ({
            let actions = config_actions(cfg, shell, path, normalized);
            let command = cfg.command(shell, forward_slashes(path));
            let notice = notice_for(cfg.notify, path);
            let n = actions.len() as int;
            &&& n == 2 + (if command is Some {
                1int
            } else {
                0int
            }) + (if notice is Some {
                1int
            } else {
                0int
            })
            &&& actions[0] == ActionModel::SetStatus(cfg.name@, "reloading"@)
            &&& actions[n - 1] == ActionModel::SetStatus(cfg.name@, "up to date"@)
            &&& command is Some ==> actions[1] == ActionModel::RunCommand(command->0)
            &&& notice is Some ==> actions[n - 2] == ActionModel::Broadcast(notice->0, normalized)
            &&& 0 <= i < n && 0 <= j < n && actions[i] is RunCommand && actions[j] is Broadcast
                ==> i < j
        }),
{
    let command = match cfg.command(shell, forward_slashes(path)) {
        Some(c) => seq![ActionModel::RunCommand(c)],
        None => Seq::<ActionModel>::empty(),
    };
    let notice = match notice_for(cfg.notify, path) {
        Some(n) => seq![ActionModel::Broadcast(n, normalized)],
        None => Seq::<ActionModel>::empty(),
    };
    let actions = config_actions(cfg, shell, path, normalized);
    assert(command.len() <= 1 && notice.len() <= 1);
    assert(actions == seq![ActionModel::SetStatus(cfg.name@, reloading())] + command + notice
        + seq![ActionModel::SetStatus(cfg.name@, up_to_date())]);
}

/// The configs that watch a path act one after the other, in their order, and the others do
/// nothing.
pub proof fn law_configs_act_in_turn(
    before: Seq<ConfigEntry>,
    cfg: ConfigEntry,
    after: Seq<ConfigEntry>,
    shell: Shell,
    path: Seq<char>,
    normalized: Seq<char>,
)
    ensures
        all_config_actions(before.push(cfg) + after, shell, path, normalized)
            == all_config_actions(before, shell, path, normalized) + (if cfg.watches_path(
            normalized,
        ) {
            config_actions(cfg, shell, path, normalized)
        } else {
            Seq::empty()
        }) + all_config_actions(after, shell, path, normalized),
        all_config_actions(Seq::empty(), shell, path, normalized) == Seq::<ActionModel>::empty(),
        any_watches(before.push(cfg) + after, normalized) <==> any_watches(before, normalized)
            || cfg.watches_path(normalized) || any_watches(after, normalized),
    decreases after.len(),
{
    let all = before.push(cfg) + after;
    let own = if cfg.watches_path(normalized) {
        config_actions(cfg, shell, path, normalized)
    } else {
        Seq::empty()
    };
    let first = all_config_actions(before, shell, path, normalized);
    if after.len() == 0 {
        assert(all =~= before.push(cfg));
        assert(all.drop_last() =~= before);
        assert(all_config_actions(all, shell, path, normalized) =~= first + own
            + all_config_actions(after, shell, path, normalized));
    } else {
        law_configs_act_in_turn(before, cfg, after.drop_last(), shell, path, normalized);
        assert(all.drop_last() =~= before.push(cfg) + after.drop_last());
        assert(all_config_actions(all, shell, path, normalized) =~= first + own
            + all_config_actions(after, shell, path, normalized));
    }
    let n = before.len() as int;
    if any_watches(before, normalized) {
        let i = choose|i: int|
            0 <= i < before.len() && (#[trigger] before[i]).watches_path(normalized);
        assert(all[i].watches_path(normalized));
    }
    if cfg.watches_path(normalized) {
        assert(all[n].watches_path(normalized));
    }
    if any_watches(after, normalized) {
        let i = choose|i: int|
            0 <= i < after.len() && (#[trigger] after[i]).watches_path(normalized);
        assert(all[n + 1 + i].watches_path(normalized));
    }
    if any_watches(all, normalized) {
        let i = choose|i: int| 0 <= i < all.len() && (#[trigger] all[i]).watches_path(normalized);
        if i < n {
            assert(before[i].watches_path(normalized));
        } else if i > n {
            assert(after[i - n - 1].watches_path(normalized));
        }
    }
}

/// What a change of a path causes that no config watches: CSS is injected and HTML reloaded
/// without a command, and for any other file the command is run first and the page reloaded
/// after it.  Before all that the change is recorded, if diffs are kept.
pub proof fn law_unwatched_change(ctx: WorkerContext, path: Seq<char>)
    requires
        !same_components(path, ctx.config_path@),
        handles(ctx, relativized(path, ctx.watch_root@)),
        !any_watches(ctx.configs@, relativized(path, ctx.watch_root@)),
    ensures
        ({
            let normalized = relativized(path, ctx.watch_root@);
            let actions = plan(ctx, path);
            let ext = ascii_lower_all(extension(path));
            let lead: int = if ctx.record_diffs {
                1
            } else {
                0
            };
            &&& ctx.record_diffs ==> actions[0] == ActionModel::RecordDiff(normalized)
            &&& ext == "css"@ ==> actions.len() == lead + 1 && actions[lead]
                == ActionModel::Broadcast(Notice::InjectCss, normalized)
            &&& ext == "html"@ || ext == "htm"@ ==> actions.len() == lead + 1 && actions[lead]
                == ActionModel::Broadcast(Notice::Reload, normalized)
            &&& ext != "css"@ && ext != "html"@ && ext != "htm"@ ==> {
                &&& actions.len() == lead + 2
                &&& actions[lead] == ActionModel::RunCommand(
                    filled_in(ctx.shell, ctx.cmd_template@, forward_slashes(path)),
                )
                &&& actions[lead + 1] == ActionModel::Broadcast(Notice::Reload, normalized)
            }
        }),
{
    reveal_strlit("css");
    reveal_strlit("html");
    reveal_strlit("htm");
    assert("css"@[0] == 'c' && "html"@[0] == 'h' && "htm"@[0] == 'h');
}

/// What a change of a path causes that configs watch: it is recorded, if diffs are kept, and
/// the configs act in turn.
pub proof fn law_watched_change(ctx: WorkerContext, path: Seq<char>)
    requires
        !same_components(path, ctx.config_path@),
        handles(ctx, relativized(path, ctx.watch_root@)),
        any_watches(ctx.configs@, relativized(path, ctx.watch_root@)),
    ensures
        ({
            let normalized = relativized(path, ctx.watch_root@);
            let lead: int = if ctx.record_diffs {
                1
            } else {
                0
            };
            &&& plan(ctx, path).len() >= lead
            &&& ctx.record_diffs ==> plan(ctx, path)[0] == ActionModel::RecordDiff(normalized)
            &&& plan(ctx, path).skip(lead) == all_config_actions(
                ctx.configs@,
                ctx.shell,
                path,
                normalized,
            )
        }),
{
    let normalized = relativized(path, ctx.watch_root@);
    let actions = all_config_actions(ctx.configs@, ctx.shell, path, normalized);
    if ctx.record_diffs {
        assert(plan(ctx, path).skip(1) =~= actions);
    } else {
        assert(plan(ctx, path).skip(0) =~= actions);
    }
}

/// A path is handled as the filter says, and is watched if any config watches it.
pub proof fn law_handled_paths(ctx: WorkerContext, normalized: Seq<char>)
    ensures
        ({
            let watched = exists|i: int|
                0 <= i < ctx.configs@.len() && (#[trigger] ctx.configs@[i]).watches_path(normalized);
            &&& any_watches(ctx.configs@, normalized) <==> watched
            &&& handles(ctx, normalized) <==> admitted(
                ctx.filter.includes(),
                ctx.filter.excludes(),
                ctx.filter.defaults(),
                watched,
                normalized,
            )
        }),
{
}

/// An entry that says `notify: none`, in any case and with any white space around it, tells
/// no client of a change, whatever command it has.
pub proof fn law_silent_entry_tells_nobody(
    raw: RawConfig,
    read: ConfigEntry,
    cfg: ConfigEntry,
    a: Seq<char>,
    word: Seq<char>,
    b: Seq<char>,
    shell: Shell,
    path: Seq<char>,
    normalized: Seq<char>,
    i: int,
)
    requires
        entry_from(raw, read),
        compiled_entry(read, cfg),
        raw.notify is Some,
        raw.notify->0@ == a + word + b,
        all_space(a),
        all_space(b),
        no_space_around(word),
        ascii_lower_all(word) == "none"@,
    ensures
        0 <= i < config_actions(cfg, shell, path, normalized).len() ==> !(config_actions(
            cfg,
            shell,
            path,
            normalized,
        )[i] is Broadcast),
{
    law_mode_is_named(a, word, b);
    law_config_acts_in_order(cfg, shell, path, normalized, i, i);
}

/// The names of entries are theirs, in order.
pub proof fn law_names_are_in_order(configs: Seq<ConfigEntry>, i: int)
    ensures
        names_of(configs).len() == configs.len(),
        0 <= i < configs.len() ==> names_of(configs)[i] == configs[i].name@,
{
}

/// A counter goes up by one, and stays where it cannot go further.
pub proof fn law_counter_goes_up_by_one(n: u64)
    ensures
        n < u64::MAX ==> counted(n) == n + 1,
        n == u64::MAX ==> counted(n) == n,
{
}

/// A millisecond has a million nanoseconds.
pub proof fn law_milliseconds_in_nanoseconds(ms: u64)
    ensures
        nanos(ms) == ms * 1_000_000,
{
}

/// The config file is `quay.yaml` in the directory that is watched, and its path is that of
/// the directory with the name after it.
pub proof fn law_config_file_is_in_the_root(root: Seq<char>)
    ensures
        components(config_path_text(root)) == components(root).push("quay.yaml"@),
        config_path_text(root).take(root.len() as int) == root,
        config_path_text(root).len() <= root.len() + 10,
        config_path_text(root).skip(config_path_text(root).len() - 9) == "quay.yaml"@,
{
    let all = config_path_text(root);
    assert(CONFIG_FILE@.len() == 9) by {
        reveal_strlit("quay.yaml");
    }
    assert(all.take(root.len() as int) =~= root);
    assert(all.skip(all.len() - 9) =~= CONFIG_FILE@);
    let name = "quay.yaml"@;
    reveal_strlit("quay.yaml");
    assert(CONFIG_FILE@ == name);
    assert(!name.contains('/'));
    assert(name != seq!['.']);
    let none = Seq::<char>::empty();
    assert(!none.contains('/'));
    if root.len() == 0 {
        law_components_stand_between_separators(none, name);
        law_components_stand_between_separators(none, none);
        assert(root =~= none);
        assert(root + name =~= name);
        assert(components(name) =~= components(root).push(name));
    } else if root.last() == '/' {
        let p = root.drop_last();
        assert(p.push('/') =~= root);
        assert(p.push('/') + none =~= root);
        law_components_stand_between_separators(p, name);
        law_components_stand_between_separators(p, none);
        assert(components(root + name) =~= components(root).push(name));
    } else {
        law_components_stand_between_separators(root, name);
        assert(root.push('/') + name =~= root + seq!['/'] + name);
        assert(components(config_path_text(root)) =~= components(root).push(name));
    }
}

/// An action says what it is, with all that it carries, and a list of actions says that of
/// each, in order.
pub proof fn law_actions_say_what_they_are(
    actions: Seq<Action>,
    i: int,
    a: String,
    b: String,
    notice: Notice,
)
    ensures
        action_models(actions).len() == actions.len(),
        0 <= i < actions.len() ==> action_models(actions)[i] == actions[i]@,
        Action::ReloadConfigs@ == ActionModel::ReloadConfigs,
        (Action::RecordDiff { path: a })@ == ActionModel::RecordDiff(a@),
        (Action::SetStatus { name: a, status: b })@ == ActionModel::SetStatus(a@, b@),
        (Action::RunCommand { command: a })@ == ActionModel::RunCommand(a@),
        (Action::Broadcast { notice, path: a })@ == ActionModel::Broadcast(notice, a@),
{
}

/// A setup that stayed the same has the same directory, config file, filter, configs, command
/// template and shell, and keeps diffs or not as before.
pub proof fn law_same_setup(a: WorkerContext, b: WorkerContext)
    ensures
        same_setup(a, b) <==> a.watch_root == b.watch_root && a.config_path == b.config_path
            && a.filter == b.filter && a.configs == b.configs && a.cmd_template == b.cmd_template
            && a.shell == b.shell && a.record_diffs == b.record_diffs,
{
}

/// Compiling entries keeps each of them in its place.
pub proof fn law_entries_are_compiled_in_place(
    before: Seq<ConfigEntry>,
    after: Seq<ConfigEntry>,
    i: int,
)
    requires
        compiled_entries(before, after),
    ensures
        after.len() == before.len(),
        0 <= i < before.len() ==> compiled_entry(before[i], after[i]),
        names_of(after) == names_of(before),
{
    assert forall|j: int| 0 <= j < after.len() implies names_of(after)[j] == names_of(before)[j] by {
        assert(compiled_entry(before[j], after[j]));
    }
    assert(names_of(after) =~= names_of(before));
}

/// What was last seen ten windows ago is stale, as far as the clock goes.
pub proof fn law_stale_age_is_ten_windows(window: u128)
    ensures
        window * 10 <= u128::MAX ==> stale_age(window) == window * 10,
        window * 10 > u128::MAX ==> stale_age(window) == u128::MAX,
        window > 0 && window < u128::MAX ==> stale_age(window) > window,
{
}

/// After some reports the counters stand where they stand after the last of them.
pub proof fn law_reports_are_counted_in_turn(
    stats: WorkerStats,
    problems: Seq<bool>,
    problem: bool,
)
    ensures
        after_reports(stats, problems.push(problem)) == after_report(
            after_reports(stats, problems),
            problem,
        ),
        after_reports(stats, Seq::empty()) == stats,
{
    assert(problems.push(problem).drop_last() =~= problems);
}

} // verus!
