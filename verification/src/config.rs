//! Configuration entries of `quay.yaml`.
//!
//! The file holds a single config mapping or a sequence of configs.  Each entry
//! describes watch patterns, commands to run, notification behaviour, and
//! additional ignore patterns.

use crate::command::{fill_in, filled_in, Shell};
use crate::filter::{
    compiled, forward_slashes, law_every_valid_pattern_counts, matched, normalize_path, patterns_of,
};
use crate::globs::{
    any_matches, build_set, gather, glob_matches, glob_valid, globs_compile, set_matches,
    set_patterns, texts, valid_patterns,
};
use crate::text::{
    all_space, ascii_lower_all, law_trimming_takes_white_space_off, lower_ascii, no_space_around,
    same_text, trim_end, trim_start, trimmed,
};
use globset::GlobSet;
use vstd::prelude::*;
use vstd::string::*;

verus! {

/// Notification mode controlling how browser clients are informed of changes.
#[derive(Debug, Clone, Copy, PartialEq, Eq, Structural)]
pub enum NotifyMode {
    /// Decide based on file extension (CSS is injected, otherwise reload).
    Auto,
    /// Always send a full-page reload.
    Reload,
    /// Always inject CSS content.
    InjectCss,
    /// Do not notify browser clients.
    Off,
}

impl Default for NotifyMode {
    fn default() -> (m: NotifyMode)
        ensures
            m == NotifyMode::Auto,
    {
        NotifyMode::Auto
    }
}

/// The mode that a text names, regardless of case and surrounding white space.
/// An unknown text means `Auto`.
pub open spec fn mode_named(s: Seq<char>) -> NotifyMode {
    let name = ascii_lower_all(trim_end(trim_start(s)));
    if name == "reload"@ {
        NotifyMode::Reload
    } else if name == "inject-css"@ || name == "inject_css"@ || name == "injectcss"@ {
        NotifyMode::InjectCss
    } else if name == "none"@ {
        NotifyMode::Off
    } else {
        NotifyMode::Auto
    }
}

impl NotifyMode {
    /// The mode that a text names; an unknown text means `Auto`.
    pub fn from_str_lossy(s: &str) -> (m: NotifyMode)
        ensures
            m == mode_named(s@),
    {
        let t = trimmed(s);
        let lower = lower_ascii(t.as_str());
        let name: &str = lower.as_str();
        if same_text(name, "auto") {
            proof {
                reveal_strlit("auto");
                reveal_strlit("reload");
                reveal_strlit("inject-css");
                reveal_strlit("inject_css");
                reveal_strlit("injectcss");
                reveal_strlit("none");
                assert("auto"@.len() == 4 && "auto"@[0] == 'a' && "none"@[0] == 'n');
            }
            NotifyMode::Auto
        } else if same_text(name, "reload") {
            NotifyMode::Reload
        } else if same_text(name, "inject-css") || same_text(name, "inject_css") || same_text(
            name,
            "injectcss",
        ) {
            NotifyMode::InjectCss
        } else if same_text(name, "none") {
            NotifyMode::Off
        } else {
            NotifyMode::Auto
        }
    }
}

/// A value of `quay.yaml` that may be one text or a list of texts.
#[derive(Debug, Clone)]
pub enum StringOrVec {
    Single(String),
    Multiple(Vec<String>),
}

impl StringOrVec {
    /// The texts that the value stands for.
    pub open spec fn items(self) -> Seq<Seq<char>> {
        match self {
            StringOrVec::Single(s) => seq![s@],
            StringOrVec::Multiple(v) => texts(v@),
        }
    }

    /// The value as a list.
    pub fn into_vec(self) -> (v: Vec<String>)
        ensures
            texts(v@) == self.items(),
    {
        match self {
            StringOrVec::Single(s) => {
                let mut v: Vec<String> = Vec::new();
                v.push(s);
                assert(texts(v@) =~= seq![s@]);
                v
            },
            StringOrVec::Multiple(v) => v,
        }
    }
}

/// An entry as it stands in the file.
#[derive(Debug, Clone)]
pub struct RawConfig {
    pub name: String,
    pub watch: Vec<String>,
    pub on_change: Option<String>,
    pub build: Option<String>,
    pub notify: Option<String>,
    pub ignore: Vec<String>,
}

/// The name of an entry that does not give one.
pub fn default_name() -> (r: String)
    ensures
        r@ == "unnamed"@,
{
    "unnamed".to_owned()
}

/// A single configuration entry.
#[derive(Debug, Clone)]
pub struct ConfigEntry {
    /// Human-readable name for this config (used in status/logging).
    pub name: String,
    /// Patterns that determine which changed files this config handles.
    pub watches: Vec<String>,
    /// Compiled set built from `watches` (see [`ConfigEntry::compile_watch_set`]).
    pub watch_set: Option<GlobSet>,
    /// Command template to run when a matching file changes (may contain `{path}`).
    pub on_change: Option<String>,
    /// Alternative build command (used when `on_change` is absent).
    pub build: Option<String>,
    /// How browser clients are informed.
    pub notify: NotifyMode,
    /// Additional exclude patterns.
    pub ignore: Vec<String>,
}

/// The texts with forward slashes.
pub open spec fn normalized_all(v: Seq<Seq<char>>) -> Seq<Seq<char>> {
    v.map_values(|p: Seq<char>| forward_slashes(p))
}

/// The text of an optional string.
pub open spec fn opt_text(s: Option<String>) -> Option<Seq<char>> {
    match s {
        Some(t) => Some(t@),
        None => None,
    }
}

/// The mode that an optional text names; `Auto` where there is none.
pub open spec fn mode_of(s: Option<String>) -> NotifyMode {
    match s {
        Some(t) => mode_named(t@),
        None => NotifyMode::Auto,
    }
}

/// Whether an entry is the one that stands in the file as `raw`: its patterns
/// have forward slashes and are not compiled yet.
pub open spec fn entry_from(raw: RawConfig, entry: ConfigEntry) -> bool {
    &&& entry.name@ == raw.name@
    &&& texts(entry.watches@) == normalized_all(texts(raw.watch@))
    &&& entry.watch_set is None
    &&& opt_text(entry.on_change) == opt_text(raw.on_change)
    &&& opt_text(entry.build) == opt_text(raw.build)
    &&& entry.notify == mode_of(raw.notify)
    &&& texts(entry.ignore@) == normalized_all(texts(raw.ignore@))
}

/// Turns a pattern to forward slashes.
pub fn normalize_pattern(p: &str) -> (r: String)
    ensures
        r@ == forward_slashes(p@),
{
    normalize_path(p)
}

/// Turns patterns to forward slashes.
fn normalize_patterns(patterns: &Vec<String>) -> (r: Vec<String>)
    ensures
        texts(r@) == normalized_all(texts(patterns@)),
{
    let mut r: Vec<String> = Vec::new();
    let mut i: usize = 0;
    while i < patterns.len()
        invariant
            i <= patterns@.len(),
            texts(r@) =~= normalized_all(texts(patterns@)).take(i as int),
        decreases patterns@.len() - i,
    {
        let ghost before = texts(r@);
        let p = normalize_pattern(patterns[i].as_str());
        r.push(p);
        proof {
            let all = normalized_all(texts(patterns@));
            assert(all[i as int] == p@);
            assert(texts(r@) =~= before.push(p@));
            assert(all.take(i + 1) =~= all.take(i as int).push(p@));
        }
        i = i + 1;
    }
    assert(normalized_all(texts(patterns@)).take(patterns@.len() as int) =~= normalized_all(
        texts(patterns@),
    ));
    r
}

impl ConfigEntry {
    /// The entry that stands in the file as `raw`.
    pub fn from_raw(raw: RawConfig) -> (entry: Self)
        ensures
            entry_from(raw, entry),
    {
        let notify: NotifyMode = match &raw.notify {
            Some(s) => NotifyMode::from_str_lossy(s.as_str()),
            None => NotifyMode::default(),
        };
        let watches = normalize_patterns(&raw.watch);
        let ignore = normalize_patterns(&raw.ignore);
        ConfigEntry {
            name: raw.name,
            watches,
            watch_set: None,
            on_change: raw.on_change,
            build: raw.build,
            notify,
            ignore,
        }
    }

    /// Whether a path matches any of the compiled watch patterns.
    pub open spec fn watches_path(&self, path: Seq<char>) -> bool {
        self.watch_set is Some && any_matches(set_patterns(self.watch_set->0), path)
    }

    /// The command template of the entry.
    pub open spec fn template(&self) -> Option<Seq<char>> {
        match self.on_change {
            Some(t) => Some(t@),
            None => opt_text(self.build),
        }
    }

    /// The command that the entry runs in a shell for a path.
    pub open spec fn command(&self, shell: Shell, path: Seq<char>) -> Option<Seq<char>> {
        match self.template() {
            Some(t) => Some(filled_in(shell, t, path)),
            None => None,
        }
    }

    /// Returns `true` if `path` matches any of this config's watch patterns.
    ///
    /// Returns `false` when no watch patterns are compiled.
    pub fn matches(&self, path: &str) -> (r: bool)
        ensures
            r == self.watches_path(path@),
    {
        match &self.watch_set {
            Some(gs) => set_matches(gs, path),
            None => false,
        }
    }

    /// Returns the command to execute with `sh -c` for a change, preferring
    /// `on_change` over `build`.  The path goes in shell-escaped.
    pub fn command_for(&self, normalized_path: &str) -> (r: Option<String>)
        ensures
            opt_text(r) == self.command(Shell::Sh, normalized_path@),
    {
        self.command_in(Shell::Sh, normalized_path)
    }

    /// Returns the command to execute in a shell for a change, preferring
    /// `on_change` over `build`.  The path goes in escaped for that shell.
    pub fn command_in(&self, shell: Shell, normalized_path: &str) -> (r: Option<String>)
        ensures
            opt_text(r) == self.command(shell, normalized_path@),
    {
        match &self.on_change {
            Some(t) => Some(fill_in(shell, t.as_str(), normalized_path)),
            None => match &self.build {
                Some(t) => Some(fill_in(shell, t.as_str(), normalized_path)),
                None => None,
            },
        }
    }

    /// Compiles the `watches` patterns and stores the set in `watch_set`.
    ///
    /// Invalid patterns are skipped.  Nothing changes where there are no
    /// patterns or the valid ones cannot be compiled.
    pub fn compile_watch_set(&mut self)
        ensures
            compiled_entry(*old(self), *final(self)),
    {
        if self.watches.len() == 0 {
            return;
        }
        let (builder, _count): (globset::GlobSetBuilder, usize) = gather(self.watches.as_slice());
        match build_set(&builder) {
            Ok(set) => {
                self.watch_set = Some(set);
            },
            Err(_) => {},
        }
    }
}

/// Whether `after` is `before` with its watch patterns compiled.
pub open spec fn compiled_entry(before: ConfigEntry, after: ConfigEntry) -> bool {
    let valid = valid_patterns(texts(before.watches@));
    &&& after.name == before.name
    &&& after.watches == before.watches
    &&& after.on_change == before.on_change
    &&& after.build == before.build
    &&& after.notify == before.notify
    &&& after.ignore == before.ignore
    &&& if before.watches@.len() > 0 && globs_compile(valid) {
        patterns_of(after.watch_set) == Some(valid)
    } else {
        after.watch_set == before.watch_set
    }
}

/// What a config file can be read as.
#[derive(Debug, Clone)]
pub enum Document {
    /// A sequence, with the entry at each place that holds a valid one.
    Sequence(Vec<Option<RawConfig>>),
    /// A single entry.
    Mapping(RawConfig),
    /// Neither.
    Other,
}

/// The valid entries of a sequence, in order.
pub open spec fn valid_entries(list: Seq<Option<RawConfig>>) -> Seq<RawConfig>
    decreases list.len(),
{
    if list.len() == 0 {
        Seq::empty()
    } else {
        match list.last() {
            Some(raw) => valid_entries(list.drop_last()).push(raw),
            None => valid_entries(list.drop_last()),
        }
    }
}

/// An invalid entry of a sequence is skipped, and the entries around it stay.
pub proof fn law_invalid_entry_is_skipped(
    before: Seq<Option<RawConfig>>,
    after: Seq<Option<RawConfig>>,
)
    ensures
        valid_entries(before.push(None) + after) == valid_entries(before + after),
    decreases after.len(),
{
    let with = before.push(None) + after;
    if after.len() == 0 {
        assert(with =~= before.push(None));
        assert(with.drop_last() =~= before);
        assert(before + after =~= before);
    } else {
        assert(with.drop_last() =~= before.push(None) + after.drop_last());
        assert((before + after).drop_last() =~= before + after.drop_last());
        law_invalid_entry_is_skipped(before, after.drop_last());
    }
}

impl Document {
    /// The entries that stand in the file.
    pub open spec fn raw_entries(self) -> Seq<RawConfig> {
        match self {
            Document::Sequence(list) => valid_entries(list@),
            Document::Mapping(raw) => seq![raw],
            Document::Other => Seq::empty(),
        }
    }
}

/// The entries of a config file: the valid ones of a sequence, or the single one.
/// Invalid entries of a sequence are skipped.  A file that is neither gives none.
pub fn entries_of(document: Document) -> (r: Vec<ConfigEntry>)
    ensures
        r@.len() == document.raw_entries().len(),
        forall|i: int|
            0 <= i < r@.len() ==> entry_from(document.raw_entries()[i], #[trigger] r@[i]),
{
    let mut r: Vec<ConfigEntry> = Vec::new();
    match document {
        Document::Sequence(list) => {
            let ghost items = list@;
            for item in it: list
                invariant
                    it.seq() == items,
                    r@.len() == valid_entries(items.take(it.index())).len(),
                    forall|i: int|
                        0 <= i < r@.len() ==> entry_from(
                            valid_entries(items.take(it.index()))[i],
                            #[trigger] r@[i],
                        ),
            {
                proof {
                    assert(items.take(it.index() + 1).drop_last() =~= items.take(it.index()));
                }
                match item {
                    Some(raw) => r.push(ConfigEntry::from_raw(raw)),
                    None => {},
                }
            }
            assert(items.take(items.len() as int) =~= items);
        },
        Document::Mapping(raw) => r.push(ConfigEntry::from_raw(raw)),
        Document::Other => {},
    }
    r
}

/// The ignore patterns of some entries, in order.
pub open spec fn ignores_of(entries: Seq<ConfigEntry>) -> Seq<Seq<char>>
    decreases entries.len(),
{
    if entries.len() == 0 {
        Seq::empty()
    } else {
        ignores_of(entries.drop_last()) + texts(entries.last().ignore@)
    }
}

/// All ignore patterns of the entries.
pub fn collect_ignores(entries: &Vec<ConfigEntry>) -> (r: Vec<String>)
    ensures
        texts(r@) == ignores_of(entries@),
{
    let mut r: Vec<String> = Vec::new();
    let mut i: usize = 0;
    assert(entries@.take(0) =~= Seq::<ConfigEntry>::empty());
    while i < entries.len()
        invariant
            i <= entries@.len(),
            texts(r@) =~= ignores_of(entries@.take(i as int)),
        decreases entries@.len() - i,
    {
        let ghost before = texts(r@);
        let list = &entries[i].ignore;
        let mut j: usize = 0;
        while j < list.len()
            invariant
                j <= list@.len(),
                texts(r@) =~= before + texts(list@).take(j as int),
            decreases list@.len() - j,
        {
            let ghost sofar = texts(r@);
            r.push(list[j].clone());
            proof {
                assert(texts(r@) =~= sofar.push(list@[j as int]@));
                assert(texts(list@).take(j + 1) =~= texts(list@).take(j as int).push(
                    list@[j as int]@,
                ));
            }
            j = j + 1;
        }
        proof {
            assert(texts(list@).take(list@.len() as int) =~= texts(list@));
            assert(entries@.take(i + 1).drop_last() =~= entries@.take(i as int));
            assert(entries@.take(i + 1).last() == entries@[i as int]);
        }
        i = i + 1;
    }
    assert(entries@.take(entries@.len() as int) =~= entries@);
    r
}

/// The mode that a text names does not depend on case or on white space around it, and
/// each mode but `Auto` has to be named.
pub proof fn law_mode_is_named(a: Seq<char>, word: Seq<char>, b: Seq<char>)
    requires
        all_space(a),
        all_space(b),
        no_space_around(word),
    ensures
        ({
            let name = ascii_lower_all(word);
            let mode = mode_named(a + word + b);
            &&& mode is Off <==> name == "none"@
            &&& mode is Reload <==> name == "reload"@
            &&& mode is InjectCss <==> name == "inject-css"@ || name == "inject_css"@ || name
                == "injectcss"@
        }),
{
    law_trimming_takes_white_space_off(a, word, b);
    reveal_strlit("none");
    reveal_strlit("reload");
    reveal_strlit("inject-css");
    reveal_strlit("inject_css");
    reveal_strlit("injectcss");
    assert("none"@.len() == 4 && "reload"@.len() == 6 && "inject-css"@.len() == 10
        && "inject_css"@.len() == 10 && "injectcss"@.len() == 9);
}

/// The notify mode of an entry depends on its notify text alone: entries with the same
/// text have the same mode, whatever else they say, and an entry without one decides by
/// the file.
pub proof fn law_notify_mode_depends_on_its_text_alone(
    raw: RawConfig,
    entry: ConfigEntry,
    other_raw: RawConfig,
    other: ConfigEntry,
)
    requires
        entry_from(raw, entry),
        entry_from(other_raw, other),
    ensures
        opt_text(raw.notify) == opt_text(other_raw.notify) ==> entry.notify == other.notify,
        raw.notify is None ==> entry.notify is Auto,
        raw.notify is Some ==> entry.notify == mode_named(raw.notify->0@),
{
}

/// An entry says what stands in the file: the same name and commands, and the same
/// patterns in the same order, in which only backslashes have become slashes.
pub proof fn law_entry_says_what_stands_in_the_file(
    raw: RawConfig,
    entry: ConfigEntry,
    i: int,
    j: int,
)
    requires
        entry_from(raw, entry),
    ensures
        entry.name@ == raw.name@,
        raw.on_change is Some ==> entry.on_change is Some && entry.on_change->0@
            == raw.on_change->0@,
        raw.on_change is None ==> entry.on_change is None,
        raw.build is Some ==> entry.build is Some && entry.build->0@ == raw.build->0@,
        raw.build is None ==> entry.build is None,
        entry.watches@.len() == raw.watch@.len(),
        entry.ignore@.len() == raw.ignore@.len(),
        0 <= i < raw.watch@.len() ==> slashed(raw.watch@[i]@, entry.watches@[i]@),
        0 <= j < raw.ignore@.len() ==> slashed(raw.ignore@[j]@, entry.ignore@[j]@),
        entry.watch_set is None,
{
    let watch = texts(entry.watches@);
    let ignore = texts(entry.ignore@);
    assert(watch.len() == texts(raw.watch@).len());
    assert(ignore.len() == texts(raw.ignore@).len());
    if 0 <= i < raw.watch@.len() {
        assert(watch[i] == entry.watches@[i]@);
        assert(watch[i] == forward_slashes(raw.watch@[i]@));
    }
    if 0 <= j < raw.ignore@.len() {
        assert(ignore[j] == entry.ignore@[j]@);
        assert(ignore[j] == forward_slashes(raw.ignore@[j]@));
    }
}

/// Whether `after` is `before` with its backslashes turned into slashes.
pub open spec fn slashed(before: Seq<char>, after: Seq<char>) -> bool {
    after.len() == before.len() && forall|k: int|
        0 <= k < before.len() ==> (#[trigger] after[k]) == if before[k] == '\\' {
            '/'
        } else {
            before[k]
        }
}

/// An entry runs its `on_change` command, and its `build` command only where there is no
/// other.
pub proof fn law_on_change_comes_before_build(cfg: ConfigEntry, shell: Shell, path: Seq<char>)
    ensures
        cfg.on_change is Some ==> cfg.command(shell, path) == Some(
            filled_in(shell, cfg.on_change->0@, path),
        ),
        cfg.on_change is None && cfg.build is Some ==> cfg.command(shell, path) == Some(
            filled_in(shell, cfg.build->0@, path),
        ),
        cfg.on_change is None && cfg.build is None ==> cfg.command(shell, path) is None,
{
}

/// An entry whose patterns are compiled watches the paths that any of its valid patterns
/// matches, and says the same as before otherwise.  One that was only read watches none.
pub proof fn law_compiled_entry_watches_its_patterns(
    before: ConfigEntry,
    after: ConfigEntry,
    path: Seq<char>,
)
    requires
        compiled_entry(before, after),
    ensures
        before.watch_set is None ==> !before.watches_path(path),
        before.watches@.len() == 0 || !globs_compile(valid_patterns(texts(before.watches@)))
            ==> after.watch_set == before.watch_set,
        before.watches@.len() > 0 && globs_compile(valid_patterns(texts(before.watches@))) ==> (
        after.watches_path(path) <==> exists|i: int|
            0 <= i < before.watches@.len() && glob_valid(before.watches@[i]@)
                && #[trigger] glob_matches(before.watches@[i]@, path)),
        after.name == before.name && after.watches == before.watches && after.on_change
            == before.on_change && after.build == before.build && after.notify == before.notify
            && after.ignore == before.ignore,
{
    let all = texts(before.watches@);
    let valid = valid_patterns(all);
    if before.watches@.len() > 0 && globs_compile(valid) {
        law_every_valid_pattern_counts(all, path);
        assert(after.watches_path(path) <==> any_matches(valid, path));
        assert(matched(compiled(all), path) <==> any_matches(valid, path));
        if exists|i: int|
            0 <= i < before.watches@.len() && glob_valid(before.watches@[i]@)
                && #[trigger] glob_matches(before.watches@[i]@, path) {
            let i = choose|i: int|
                0 <= i < before.watches@.len() && glob_valid(before.watches@[i]@)
                    && #[trigger] glob_matches(before.watches@[i]@, path);
            assert(all[i] == before.watches@[i]@);
            assert(glob_matches(all[i], path));
        }
        if exists|i: int|
            0 <= i < all.len() && glob_valid(all[i]) && #[trigger] glob_matches(all[i], path) {
            let i = choose|i: int|
                0 <= i < all.len() && glob_valid(all[i]) && #[trigger] glob_matches(all[i], path);
            assert(all[i] == before.watches@[i]@);
            assert(glob_matches(before.watches@[i]@, path));
        }
    }
}

/// The valid entries of a sequence are taken in order, each once, and a file with one
/// entry has that entry.
pub proof fn law_valid_entries_are_taken_in_order(
    before: Seq<Option<RawConfig>>,
    raw: RawConfig,
    after: Seq<Option<RawConfig>>,
)
    ensures
        valid_entries(before.push(Some(raw)) + after) == valid_entries(before).push(raw)
            + valid_entries(after),
        valid_entries(Seq::empty()) == Seq::<RawConfig>::empty(),
        Document::Mapping(raw).raw_entries() == seq![raw],
        Document::Other.raw_entries() == Seq::<RawConfig>::empty(),
    decreases after.len(),
{
    let list = before.push(Some(raw)) + after;
    if after.len() == 0 {
        assert(list =~= before.push(Some(raw)));
        assert(list.drop_last() =~= before);
        assert(valid_entries(before).push(raw) + valid_entries(after) =~= valid_entries(
            before,
        ).push(raw));
    } else {
        law_valid_entries_are_taken_in_order(before, raw, after.drop_last());
        assert(list.drop_last() =~= before.push(Some(raw)) + after.drop_last());
        assert(valid_entries(list) =~= valid_entries(before).push(raw) + valid_entries(after));
    }
}

/// The file of a sequence has the valid entries of the sequence.
pub proof fn law_sequence_has_its_valid_entries(list: Vec<Option<RawConfig>>)
    ensures
        Document::Sequence(list).raw_entries() == valid_entries(list@),
{
}

/// The ignore patterns of all entries are collected, in order.
pub proof fn law_every_ignore_pattern_is_collected(
    before: Seq<ConfigEntry>,
    entry: ConfigEntry,
    after: Seq<ConfigEntry>,
)
    ensures
        ignores_of(before.push(entry) + after) == ignores_of(before) + texts(entry.ignore@)
            + ignores_of(after),
        ignores_of(Seq::empty()) == Seq::<Seq<char>>::empty(),
    decreases after.len(),
{
    let all = before.push(entry) + after;
    if after.len() == 0 {
        assert(all =~= before.push(entry));
        assert(all.drop_last() =~= before);
        assert(ignores_of(all) =~= ignores_of(before) + texts(entry.ignore@) + ignores_of(after));
    } else {
        law_every_ignore_pattern_is_collected(before, entry, after.drop_last());
        assert(all.drop_last() =~= before.push(entry) + after.drop_last());
        assert(ignores_of(all) =~= ignores_of(before) + texts(entry.ignore@) + ignores_of(after));
    }
}

/// A value that is one text stands for that text, and a list for its items.
pub proof fn law_single_text_is_a_list_of_one(s: String, v: Vec<String>, i: int)
    ensures
        StringOrVec::Single(s).items() == seq![s@],
        StringOrVec::Multiple(v).items().len() == v@.len(),
        0 <= i < v@.len() ==> StringOrVec::Multiple(v).items()[i] == v@[i]@,
{
}

/// The text of an optional string is its text.
pub proof fn law_optional_text(s: String)
    ensures
        opt_text(Some(s)) == Some(s@),
        opt_text(None) is None,
{
}

} // verus!
