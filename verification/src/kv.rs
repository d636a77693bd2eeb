//! In-memory store of file change diffs.
//!
//! When a file changes, the store compares its content against the last known
//! one, its snapshot, records the diff and keeps the new content as the
//! snapshot for the next change.
//!
//! The store is bounded: each path retains at most `capacity` entries (the
//! oldest goes first), and at most `max_keys` paths are tracked (the path that
//! came in first goes first).  Content larger than `max_file_size` is recorded
//! with a placeholder and never becomes a snapshot.

use crate::diff::{binary_change, compute_diff, diff_text};
use crate::json::{
    add_member, flag_value, member, new_members, number_value, object_value, text_value,
    value_model, JsonModel,
};
use crate::ordered::{with_key, without, OrderedMap};
use crate::text::{decimal, push_decimal};
use std::collections::VecDeque;
use std::sync::{Arc, Mutex};
use vstd::prelude::*;
use vstd::string::*;

verus! {

/// Default maximum file size (in bytes) that the diff store will process:
/// 512 KiB, generous for source files, safe for memory.
pub const DEFAULT_MAX_FILE_SIZE: usize = 512 * 1024;

/// A single recorded diff for a file change.
#[derive(Debug, Clone)]
pub struct DiffEntry {
    /// Normalised path that changed.
    pub path: String,
    /// When the change was recorded, in seconds since the Unix epoch.
    pub timestamp: u64,
    /// Human-readable diff using `+` / `-` prefixes.
    pub diff: String,
    /// Size (bytes) of the previous snapshot (`0` if there was none).
    pub old_size: usize,
    /// Size (bytes) of the new content.
    pub new_size: usize,
    /// Whether the change is one of a binary file: the content, or the one before, is
    /// not UTF-8 or looks binary.
    pub binary: bool,
    /// Whether the file was too large and the diff is a placeholder.
    pub truncated: bool,
}

/// What a [`DiffEntry`] says.
#[verifier::ext_equal]
pub struct EntryModel {
    pub path: Seq<char>,
    pub timestamp: u64,
    pub diff: Seq<char>,
    pub old_size: nat,
    pub new_size: nat,
    pub binary: bool,
    pub truncated: bool,
}

impl View for DiffEntry {
    type V = EntryModel;

    open spec fn view(&self) -> EntryModel {
        EntryModel {
            path: self.path@,
            timestamp: self.timestamp,
            diff: self.diff@,
            old_size: self.old_size as nat,
            new_size: self.new_size as nat,
            binary: self.binary,
            truncated: self.truncated,
        }
    }
}

/// Summary statistics for the store.
#[derive(Debug, Clone, Copy, PartialEq, Eq, Structural)]
pub struct StoreSummary {
    /// Number of distinct file paths tracked.
    pub tracked_files: usize,
    /// Total number of diff entries across all paths.
    pub total_diffs: usize,
    /// Per-path capacity (max history depth).
    pub capacity: usize,
    /// Maximum number of paths the store will track.
    pub max_keys: usize,
    /// Maximum file size (bytes) the store will diff.
    pub max_file_size: usize,
}

/// Bounded in-memory store of file diffs and content snapshots.
#[derive(Debug)]
pub struct DiffStore {
    /// Diff history of each path, in the order in which the paths came in.
    tracked_files: OrderedMap<VecDeque<DiffEntry>>,
    /// Last known content of each path.
    snapshots: OrderedMap<Vec<u8>>,
    capacity: usize,
    max_keys: usize,
    max_file_size: usize,
}

/// Shared handle to a [`DiffStore`].
pub type SharedDiffStore = Arc<Mutex<DiffStore>>;

/// The standard mutual exclusion lock.
#[verifier::external_type_specification]
#[verifier::external_body]
#[verifier::reject_recursive_types(T)]
pub struct ExMutex<T: ?Sized>(std::sync::Mutex<T>);

/// What the store held that a lock was made with.  That does not change, whatever is
/// done to the store behind the lock afterwards.
pub uninterp spec fn made_with(lock: std::sync::Mutex<DiffStore>) -> StoreModel;

/// `Mutex::new` puts a value behind a lock: the lock is made with the store that is
/// handed over.  What it holds later changes through shared references, so nothing is
/// said of that.
#[verifier::external_body]
fn behind_lock(store: DiffStore) -> (lock: std::sync::Mutex<DiffStore>)
    ensures
        made_with(lock) == store@,
{
    std::sync::Mutex::new(store)
}

/// What a [`DiffStore`] holds.
#[verifier::ext_equal]
pub struct StoreModel {
    /// The tracked paths in the order in which they came in.
    pub keys: Seq<Seq<char>>,
    /// The entries of each tracked path, oldest first.
    pub histories: Map<Seq<char>, Seq<EntryModel>>,
    /// The last known content of each path.
    pub snapshots: Map<Seq<char>, Seq<u8>>,
    pub capacity: nat,
    pub max_keys: nat,
    pub max_file_size: nat,
}

/// What a list of entries says.
pub open spec fn entry_models(entries: Seq<DiffEntry>) -> Seq<EntryModel> {
    entries.map_values(|e: DiffEntry| e@)
}

/// The last `n` items of a sequence.
pub open spec fn last_n<T>(s: Seq<T>, n: nat) -> Seq<T> {
    if s.len() > n {
        s.skip(s.len() - n)
    } else {
        s
    }
}

/// What holds of every store: its bounds are positive, the paths listed are the
/// ones with a history, there are at most `max_keys` of them, each history has
/// between one and `capacity` entries, all for its path, and no snapshot is
/// larger than `max_file_size`.
pub open spec fn bounded(m: StoreModel) -> bool {
    &&& m.capacity >= 1
    &&& m.max_keys >= 1
    &&& m.max_file_size >= 1
    &&& m.keys.no_duplicates()
    &&& m.keys.len() <= m.max_keys
    &&& forall|k: Seq<char>| #[trigger] m.histories.contains_key(k) <==> m.keys.contains(k)
    &&& forall|k: Seq<char>| #[trigger]
        m.histories.contains_key(k) ==> 1 <= m.histories[k].len() <= m.capacity
    &&& forall|k: Seq<char>, i: int|
        m.histories.contains_key(k) && 0 <= i < m.histories[k].len()
            ==> (#[trigger] m.histories[k][i]).path == k
    &&& forall|k: Seq<char>| #[trigger]
        m.snapshots.contains_key(k) ==> m.snapshots[k].len() <= m.max_file_size
}

/// The store without the path that came in first.
pub open spec fn without_first(m: StoreModel) -> StoreModel {
    StoreModel {
        keys: m.keys.drop_first(),
        histories: m.histories.remove(m.keys[0]),
        snapshots: m.snapshots.remove(m.keys[0]),
        ..m
    }
}

/// The store with room for an entry of `path`: a full store gives up the path
/// that came in first, unless `path` is tracked already.
pub open spec fn with_room(m: StoreModel, path: Seq<char>) -> StoreModel {
    if m.keys.contains(path) || m.keys.len() < m.max_keys {
        m
    } else {
        without_first(m)
    }
}

/// The history of a path; empty for a path that is not tracked.
pub open spec fn history(m: StoreModel, path: Seq<char>) -> Seq<EntryModel> {
    if m.histories.contains_key(path) {
        m.histories[path]
    } else {
        Seq::empty()
    }
}

/// The latest entry of a path.
pub open spec fn latest(m: StoreModel, path: Seq<char>) -> Option<EntryModel> {
    if m.histories.contains_key(path) {
        Some(m.histories[path].last())
    } else {
        None
    }
}

/// The store after an entry was added to the history of a path.
pub open spec fn inserted(m: StoreModel, path: Seq<char>, entry: EntryModel) -> StoreModel {
    let room = with_room(m, path);
    StoreModel {
        keys: with_key(room.keys, path),
        histories: room.histories.insert(
            path,
            last_n(history(room, path).push(entry), m.capacity),
        ),
        ..room
    }
}

/// The snapshot of a path.
pub open spec fn snapshot_of(m: StoreModel, path: Seq<char>) -> Option<Seq<u8>> {
    if m.snapshots.contains_key(path) {
        Some(m.snapshots[path])
    } else {
        None
    }
}

/// The size of the snapshot of a path, `0` where there is none.
pub open spec fn snapshot_size(m: StoreModel, path: Seq<char>) -> nat {
    match snapshot_of(m, path) {
        Some(bytes) => bytes.len(),
        None => 0,
    }
}

/// The placeholder for a file of `size` bytes that is over the limit.
pub open spec fn placeholder(size: nat, limit: nat) -> Seq<char> {
    "<file too large: "@ + decimal(size) + " bytes, limit "@ + decimal(limit) + " bytes>"@
}

/// The entry for a file of `size` bytes that is over the limit.
pub open spec fn oversized_entry(
    m: StoreModel,
    path: Seq<char>,
    size: nat,
    now: u64,
) -> EntryModel {
    EntryModel {
        path,
        timestamp: now,
        diff: placeholder(size, m.max_file_size),
        old_size: snapshot_size(m, path),
        new_size: size,
        binary: false,
        truncated: true,
    }
}

/// The entry for a change of `path` to `content`.
pub open spec fn entry_for(
    m: StoreModel,
    path: Seq<char>,
    content: Seq<u8>,
    now: u64,
) -> EntryModel {
    if content.len() > m.max_file_size {
        oversized_entry(m, path, content.len(), now)
    } else {
        EntryModel {
            path,
            timestamp: now,
            diff: diff_text(snapshot_of(m, path), content),
            old_size: snapshot_size(m, path),
            new_size: content.len(),
            binary: binary_change(snapshot_of(m, path), content),
            truncated: false,
        }
    }
}

/// The store with `content` as the snapshot of a path, if it is not too large.
pub open spec fn seeded(m: StoreModel, path: Seq<char>, content: Seq<u8>) -> StoreModel {
    if content.len() > m.max_file_size {
        m
    } else {
        StoreModel { snapshots: m.snapshots.insert(path, content), ..m }
    }
}

/// The store after a change of `path` to `content` was recorded.
pub open spec fn recorded(
    m: StoreModel,
    path: Seq<char>,
    content: Seq<u8>,
    now: u64,
) -> StoreModel {
    inserted(seeded(m, path, content), path, entry_for(m, path, content, now))
}

/// The store after a path was removed.
pub open spec fn removed(m: StoreModel, path: Seq<char>) -> StoreModel {
    StoreModel {
        keys: without(m.keys, path),
        histories: m.histories.remove(path),
        snapshots: m.snapshots.remove(path),
        ..m
    }
}

/// An empty store with the given bounds.
pub open spec fn empty_store(capacity: nat, max_keys: nat, max_file_size: nat) -> StoreModel {
    StoreModel {
        keys: Seq::empty(),
        histories: Map::empty(),
        snapshots: Map::empty(),
        capacity,
        max_keys,
        max_file_size,
    }
}

/// The number of entries in the histories of the given paths.
pub open spec fn count_entries(
    histories: Map<Seq<char>, Seq<EntryModel>>,
    keys: Seq<Seq<char>>,
) -> nat
    decreases keys.len(),
{
    if keys.len() == 0 {
        0
    } else {
        count_entries(histories, keys.drop_last()) + histories[keys.last()].len()
    }
}

/// `1` in place of `0`.
pub open spec fn at_least_one(n: usize) -> nat {
    if n == 0 {
        1
    } else {
        n as nat
    }
}

/// The wall clock, `SystemTime::now`, in whole seconds since the Unix epoch;
/// nothing if it is before the epoch.  What time it is cannot be foretold.
#[verifier::external_body]
fn clock_seconds() -> Option<u64> {
    match std::time::SystemTime::now().duration_since(std::time::SystemTime::UNIX_EPOCH) {
        Ok(d) => Some(d.as_secs()),
        Err(_) => None,
    }
}

/// The time that a reading of the clock stands for: a clock before the epoch counts as
/// being at it.
pub fn timestamp_of(reading: Option<u64>) -> (now: u64)
    ensures
        now == match reading {
            Some(seconds) => seconds,
            None => 0,
        },
{
    match reading {
        Some(seconds) => seconds,
        None => 0,
    }
}

impl DiffEntry {
    /// A copy of the entry.
    pub(crate) fn duplicate(&self) -> (r: DiffEntry)
        ensures
            r@ == self@,
    {
        DiffEntry {
            path: self.path.clone(),
            timestamp: self.timestamp,
            diff: self.diff.clone(),
            old_size: self.old_size,
            new_size: self.new_size,
            binary: self.binary,
            truncated: self.truncated,
        }
    }

    /// This entry as a JSON object.
    pub fn to_json(&self) -> (v: serde_json::Value)
        ensures
            value_model(v) == entry_json(self@),
    {
        let mut members = new_members();
        add_member(&mut members, "path", text_value(self.path.as_str()));
        add_member(&mut members, "timestamp", number_value(self.timestamp));
        add_member(&mut members, "diff", text_value(self.diff.as_str()));
        add_member(&mut members, "old_size", number_value(self.old_size as u64));
        add_member(&mut members, "new_size", number_value(self.new_size as u64));
        add_member(&mut members, "binary", flag_value(self.binary));
        add_member(&mut members, "truncated", flag_value(self.truncated));
        object_value(members)
    }
}

impl StoreSummary {
    /// This summary as a JSON object.
    pub fn to_json(&self) -> (v: serde_json::Value)
        ensures
            value_model(v) == summary_json(*self),
    {
        let mut members = new_members();
        add_member(&mut members, "tracked_files", number_value(self.tracked_files as u64));
        add_member(&mut members, "total_diffs", number_value(self.total_diffs as u64));
        add_member(&mut members, "capacity", number_value(self.capacity as u64));
        add_member(&mut members, "max_keys", number_value(self.max_keys as u64));
        add_member(&mut members, "max_file_size", number_value(self.max_file_size as u64));
        object_value(members)
    }
}

/// The JSON object that a summary is reported as.
pub open spec fn summary_json(s: StoreSummary) -> JsonModel {
    JsonModel::Object(
        map![
            "tracked_files"@ => JsonModel::Number(s.tracked_files as int),
            "total_diffs"@ => JsonModel::Number(s.total_diffs as int),
            "capacity"@ => JsonModel::Number(s.capacity as int),
            "max_keys"@ => JsonModel::Number(s.max_keys as int),
            "max_file_size"@ => JsonModel::Number(s.max_file_size as int),
        ],
    )
}

/// The JSON object that an entry is reported as.
pub open spec fn entry_json(e: EntryModel) -> JsonModel {
    JsonModel::Object(
        map![
            "path"@ => JsonModel::Text(e.path),
            "timestamp"@ => JsonModel::Number(e.timestamp as int),
            "diff"@ => JsonModel::Text(e.diff),
            "old_size"@ => JsonModel::Number(e.old_size as int),
            "new_size"@ => JsonModel::Number(e.new_size as int),
            "binary"@ => JsonModel::Bool(e.binary),
            "truncated"@ => JsonModel::Bool(e.truncated),
        ],
    )
}

impl View for DiffStore {
    type V = StoreModel;

    closed spec fn view(&self) -> StoreModel {
        StoreModel {
            keys: self.tracked_files.keys(),
            histories: self.tracked_files@.map_values(|ring: VecDeque<DiffEntry>| entry_models(ring@)),
            snapshots: self.snapshots@.map_values(|bytes: Vec<u8>| bytes@),
            capacity: self.capacity as nat,
            max_keys: self.max_keys as nat,
            max_file_size: self.max_file_size as nat,
        }
    }
}

impl DiffStore {
    /// The store is well-formed: its tables have no key twice and its contents
    /// are within bounds.
    pub closed spec fn wf(&self) -> bool {
        &&& self.tracked_files.wf()
        &&& self.snapshots.wf()
        &&& bounded(self@)
    }

    /// The contents of a well-formed store are within bounds.
    pub proof fn lemma_wf(&self)
        requires
            self.wf(),
        ensures
            bounded(self@),
    {
    }

    /// Creates an empty store.
    ///
    /// * `capacity`: max diff entries per path, at least `1`.
    /// * `max_keys`: max paths tracked, at least `1`.
    /// * `max_file_size`: max file size in bytes, at least `1`.
    pub fn new(capacity: usize, max_keys: usize, max_file_size: usize) -> (s: Self)
        ensures
            s.wf(),
            s@ == empty_store(
                at_least_one(capacity),
                at_least_one(max_keys),
                at_least_one(max_file_size),
            ),
    {
        let s = DiffStore {
            tracked_files: OrderedMap::new(),
            snapshots: OrderedMap::new(),
            capacity: if capacity == 0 { 1 } else { capacity },
            max_keys: if max_keys == 0 { 1 } else { max_keys },
            max_file_size: if max_file_size == 0 { 1 } else { max_file_size },
        };
        proof {
            assert(s@.histories =~= Map::<Seq<char>, Seq<EntryModel>>::empty());
            assert(s@.snapshots =~= Map::<Seq<char>, Seq<u8>>::empty());
        }
        s
    }

    /// Creates an empty store behind a lock, with the same bounds as
    /// [`DiffStore::new`] gives it.
    pub fn new_shared(capacity: usize, max_keys: usize, max_file_size: usize) -> (s:
        SharedDiffStore)
        ensures
            made_with(*s) == empty_store(
                at_least_one(capacity),
                at_least_one(max_keys),
                at_least_one(max_file_size),
            ),
    {
        Arc::new(behind_lock(Self::new(capacity, max_keys, max_file_size)))
    }

    /// Maximum number of entries retained per path.
    pub fn capacity(&self) -> (n: usize)
        ensures
            n == self@.capacity,
    {
        self.capacity
    }

    /// Maximum number of paths tracked.
    pub fn max_keys(&self) -> (n: usize)
        ensures
            n == self@.max_keys,
    {
        self.max_keys
    }

    /// Maximum size of content that is diffed.
    pub fn max_file_size(&self) -> (n: usize)
        ensures
            n == self@.max_file_size,
    {
        self.max_file_size
    }
}

impl DiffStore {
    /// The histories of the store, by path.
    proof fn lemma_tables(&self)
        requires
            self.tracked_files.wf(),
            self.snapshots.wf(),
        ensures
            forall|k: Seq<char>| #[trigger]
                self@.histories.contains_key(k) <==> self.tracked_files@.contains_key(k),
            forall|k: Seq<char>| #[trigger]
                self@.histories.contains_key(k) ==> self@.histories[k] == entry_models(
                    self.tracked_files@[k]@,
                ),
            forall|k: Seq<char>| #[trigger]
                self@.snapshots.contains_key(k) <==> self.snapshots@.contains_key(k),
            forall|k: Seq<char>| #[trigger]
                self@.snapshots.contains_key(k) ==> self@.snapshots[k] == self.snapshots@[k]@,
            forall|k: Seq<char>| #[trigger]
                self@.histories.contains_key(k) <==> self@.keys.contains(k),
    {
        self.tracked_files.lemma_domain();
    }

    /// Gives up the path that came in first, with its snapshot.
    fn evict_first(&mut self)
        requires
            old(self).wf(),
            old(self)@.keys.len() > 0,
        ensures
            final(self).wf(),
            final(self)@ == without_first(old(self)@),
    {
        let ghost before = *self;
        let (evicted, _ring) = self.tracked_files.remove_at(0);
        let _existed = self.snapshots.remove(evicted.as_str());
        proof {
            let first = before@.keys[0];
            before.lemma_tables();
            self.lemma_tables();
            assert(before@.keys.remove(0) =~= before@.keys.drop_first());
            assert(self@.keys =~= before@.keys.drop_first());
            assert(self@.histories =~= before@.histories.remove(first));
            assert(self@.snapshots =~= before@.snapshots.remove(first));
            lemma_without_first_bounded(before@);
        }
    }

    /// Adds an entry to the history of a path: a full store first gives up the
    /// path that came in first, a full history its oldest entry.
    fn insert_entry(&mut self, path: &str, entry: DiffEntry)
        requires
            old(self).wf(),
            entry.path@ == path@,
        ensures
            final(self).wf(),
            final(self)@ == inserted(old(self)@, path@, entry@),
    {
        proof {
            self.lemma_tables();
        }
        let known: bool = self.tracked_files.contains_key(path);
        assert(known == self@.histories.contains_key(path@));
        assert(known == self@.keys.contains(path@));
        if !known && self.tracked_files.len() >= self.max_keys {
            self.evict_first();
        }
        let ghost room = *self;
        proof {
            assert(room@ == with_room(old(self)@, path@));
            room.lemma_tables();
            lemma_inserted_bounded(old(self)@, path@, entry@);
        }
        match self.tracked_files.find(path) {
            Some(i) => {
                let mut ring: VecDeque<DiffEntry> = VecDeque::new();
                self.tracked_files.swap_value(i, &mut ring);
                let ghost kept = ring@;
                if ring.len() >= self.capacity {
                    let _oldest = ring.pop_front();
                }
                ring.push_back(entry);
                let ghost pushed = ring@;
                self.tracked_files.swap_value(i, &mut ring);
                proof {
                    assert(self.tracked_files@ =~= room.tracked_files@.insert(path@, self.tracked_files@[path@]));
                    self.lemma_tables();
                    let all = entry_models(kept).push(entry@);
                    assert(entry_models(pushed) =~= last_n(all, room@.capacity));
                    assert(self@.histories =~= room@.histories.insert(
                        path@,
                        last_n(history(room@, path@).push(entry@), room@.capacity),
                    ));
                    assert(self@.snapshots =~= room@.snapshots);
                }
            },
            None => {
                let mut ring: VecDeque<DiffEntry> = VecDeque::new();
                ring.push_back(entry);
                let ghost pushed = ring@;
                self.tracked_files.insert(path.to_owned(), ring);
                proof {
                    self.lemma_tables();
                    assert(entry_models(pushed) =~= Seq::<EntryModel>::empty().push(entry@));
                    assert(self@.histories =~= room@.histories.insert(
                        path@,
                        last_n(history(room@, path@).push(entry@), room@.capacity),
                    ));
                    assert(self@.snapshots =~= room@.snapshots);
                }
            },
        }
        proof {
            assert(self@ =~= inserted(old(self)@, path@, entry@));
        }
    }

    /// The size of the snapshot of a path, `0` where there is none.
    fn snapshot_len(&self, path: &str) -> (n: usize)
        requires
            self.wf(),
        ensures
            n == snapshot_size(self@, path@),
    {
        proof {
            self.lemma_tables();
        }
        match self.snapshots.get(path) {
            Some(bytes) => bytes.len(),
            None => 0,
        }
    }

    /// The placeholder shown for a file that is over the size limit.
    pub fn too_large_placeholder(size: usize, limit: usize) -> (r: String)
        ensures
            r@ == placeholder(size as nat, limit as nat),
    {
        let mut r: String = "<file too large: ".to_owned();
        push_decimal(&mut r, size as u64);
        r.append(" bytes, limit ");
        push_decimal(&mut r, limit as u64);
        r.append(" bytes>");
        r
    }

    /// Records a change to a file of `size` bytes that is over the limit: a
    /// placeholder entry, with the snapshot left as it is.
    fn record_oversized(&mut self, path: &str, size: usize, now: u64) -> (entry: DiffEntry)
        requires
            old(self).wf(),
        ensures
            final(self).wf(),
            entry@ == oversized_entry(old(self)@, path@, size as nat, now),
            final(self)@ == inserted(old(self)@, path@, entry@),
    {
        let entry = DiffEntry {
            path: path.to_owned(),
            timestamp: now,
            diff: DiffStore::too_large_placeholder(size, self.max_file_size),
            old_size: self.snapshot_len(path),
            new_size: size,
            binary: false,
            truncated: true,
        };
        let copy = entry.duplicate();
        self.insert_entry(path, copy);
        entry
    }

    /// Keeps `content` as the snapshot of a path *without* creating an entry,
    /// so that the next change produces a meaningful diff.
    ///
    /// Content larger than `max_file_size` is ignored.
    pub fn seed_snapshot(&mut self, path: &str, content: &[u8])
        requires
            old(self).wf(),
        ensures
            final(self).wf(),
            final(self)@ == seeded(old(self)@, path@, content@),
    {
        if content.len() > self.max_file_size {
            return;
        }
        let ghost before = *self;
        let bytes: Vec<u8> = copy_bytes(content);
        self.snapshots.insert(path.to_owned(), bytes);
        proof {
            before.lemma_tables();
            self.lemma_tables();
            assert(self@.histories =~= before@.histories);
            assert(self@.snapshots =~= before@.snapshots.insert(path@, content@));
            assert(self@ =~= seeded(before@, path@, content@));
        }
    }

    /// Records a change of `path` to `new_content` at the time `now` (seconds
    /// since the Unix epoch): diffs it against the snapshot, adds the entry to
    /// the history and keeps the content as the new snapshot.
    ///
    /// Content larger than `max_file_size` gives a placeholder entry and leaves
    /// the snapshot as it is.  Returns the new entry.
    pub fn record_change_at(&mut self, path: &str, new_content: &[u8], now: u64) -> (r: Option<
        DiffEntry,
    >)
        requires
            old(self).wf(),
        ensures
            final(self).wf(),
            final(self)@ == recorded(old(self)@, path@, new_content@, now),
            r is Some,
            r->0@ == entry_for(old(self)@, path@, new_content@, now),
    {
        if new_content.len() > self.max_file_size {
            return Some(self.record_oversized(path, new_content.len(), now));
        }
        proof {
            self.lemma_tables();
        }
        let old_size: usize = self.snapshot_len(path);
        let (diff, binary): (String, bool) = match self.snapshots.get(path) {
            Some(bytes) => compute_diff(Some(bytes.as_slice()), new_content),
            None => compute_diff(None, new_content),
        };
        let entry = DiffEntry {
            path: path.to_owned(),
            timestamp: now,
            diff,
            old_size,
            new_size: new_content.len(),
            binary,
            truncated: false,
        };
        let copy = entry.duplicate();
        self.seed_snapshot(path, new_content);
        self.insert_entry(path, copy);
        Some(entry)
    }

    /// Records a change of `path` to `new_content` now.
    ///
    /// See [`DiffStore::record_change_at`].
    pub fn record_change(&mut self, path: &str, new_content: &[u8]) -> (r: Option<DiffEntry>)
        requires
            old(self).wf(),
        ensures
            final(self).wf(),
            r is Some,
            r->0@ == entry_for(old(self)@, path@, new_content@, r->0.timestamp),
            final(self)@ == recorded(old(self)@, path@, new_content@, r->0.timestamp),
    {
        let now: u64 = timestamp_of(clock_seconds());
        self.record_change_at(path, new_content, now)
    }
}

/// A copy of some bytes.
pub(crate) fn copy_bytes(bytes: &[u8]) -> (v: Vec<u8>)
    ensures
        v@ == bytes@,
{
    let mut v: Vec<u8> = Vec::new();
    let mut i: usize = 0;
    while i < bytes.len()
        invariant
            i <= bytes@.len(),
            v@ == bytes@.take(i as int),
        decreases bytes@.len() - i,
    {
        v.push(bytes[i]);
        i = i + 1;
    }
    assert(bytes@.take(bytes@.len() as int) =~= bytes@);
    v
}

/// Giving up a path keeps a store within bounds.
proof fn lemma_without_first_bounded(m: StoreModel)
    requires
        bounded(m),
        m.keys.len() > 0,
    ensures
        bounded(without_first(m)),
{
    let r = without_first(m);
    let first = m.keys[0];
    assert forall|k: Seq<char>| #[trigger] r.histories.contains_key(k) <==> r.keys.contains(k) by {
        if r.keys.contains(k) {
            let i = choose|i: int| 0 <= i < r.keys.len() && r.keys[i] == k;
            assert(m.keys[i + 1] == k);
            assert(m.keys.contains(k));
            assert(k != first);
        }
        if r.histories.contains_key(k) {
            assert(m.histories.contains_key(k));
            let i = choose|i: int| 0 <= i < m.keys.len() && m.keys[i] == k;
            assert(i > 0);
            assert(r.keys[i - 1] == k);
        }
    }
    assert forall|k: Seq<char>| #[trigger] r.histories.contains_key(k) implies 1
        <= r.histories[k].len() <= r.capacity by {
        assert(m.histories.contains_key(k));
    }
    assert forall|k: Seq<char>| #[trigger] r.snapshots.contains_key(k) implies r.snapshots[k].len()
        <= r.max_file_size by {
        assert(m.snapshots.contains_key(k));
    }
}

/// Adding an entry keeps a store within bounds.
proof fn lemma_inserted_bounded(m: StoreModel, path: Seq<char>, entry: EntryModel)
    requires
        bounded(m),
        entry.path == path,
    ensures
        bounded(with_room(m, path)),
        bounded(inserted(m, path, entry)),
{
    let room = with_room(m, path);
    if !(m.keys.contains(path) || m.keys.len() < m.max_keys) {
        lemma_without_first_bounded(m);
        assert(!room.keys.contains(path)) by {
            if room.keys.contains(path) {
                let i = choose|i: int| 0 <= i < room.keys.len() && room.keys[i] == path;
                assert(m.keys[i + 1] == path);
            }
        }
    }
    let r = inserted(m, path, entry);
    if room.keys.contains(path) {
        assert(room.histories.contains_key(path));
    } else {
        assert(!room.histories.contains_key(path));
        assert(r.keys == room.keys.push(path));
        assert(room.keys.len() < m.max_keys);
        assert forall|i: int, j: int| 0 <= i < j < r.keys.len() implies r.keys[i] != r.keys[j] by {
            if j == room.keys.len() {
                assert(room.keys.contains(room.keys[i]));
            }
        }
    }
    assert forall|k: Seq<char>| #[trigger] r.histories.contains_key(k) <==> r.keys.contains(k) by {
        if k == path {
            if !room.keys.contains(path) {
                assert(r.keys[room.keys.len() as int] == path);
            }
        } else {
            assert(r.histories.contains_key(k) == room.histories.contains_key(k));
            if room.keys.contains(k) {
                let i = choose|i: int| 0 <= i < room.keys.len() && room.keys[i] == k;
                assert(r.keys[i] == k);
            }
            if r.keys.contains(k) {
                let i = choose|i: int| 0 <= i < r.keys.len() && r.keys[i] == k;
                assert(room.keys[i] == k);
            }
        }
    }
    let kept = history(room, path);
    let all = kept.push(entry);
    assert(forall|i: int| 0 <= i < all.len() ==> (#[trigger] all[i]).path == path);
    assert(r.histories[path] == last_n(all, m.capacity));
    assert forall|k: Seq<char>, i: int|
        r.histories.contains_key(k) && 0 <= i < r.histories[k].len() implies (
    #[trigger] r.histories[k][i]).path == k by {
        if k == path {
            let shift = all.len() - r.histories[path].len();
            assert(r.histories[path][i] == all[i + shift]);
        } else {
            assert(room.histories.contains_key(k));
        }
    }
    assert forall|k: Seq<char>| #[trigger] r.histories.contains_key(k) implies 1
        <= r.histories[k].len() <= r.capacity by {
        if k != path {
            assert(room.histories.contains_key(k));
        }
    }
}

/// The store after a change of a file on disk, of which `stat_len` bytes were
/// reported and `content` was read: a file that is reported to be over the
/// limit gets a placeholder whatever was read, and a file that could not be
/// read gets nothing.
pub open spec fn recorded_from_disk(
    m: StoreModel,
    path: Seq<char>,
    stat_len: Option<usize>,
    content: Option<Seq<u8>>,
    now: u64,
) -> (StoreModel, Option<EntryModel>) {
    if !worth_reading(m, stat_len) {
        let entry = oversized_entry(m, path, stat_len->0 as nat, now);
        (inserted(m, path, entry), Some(entry))
    } else {
        match content {
            Some(bytes) => (
                recorded(m, path, bytes, now),
                Some(entry_for(m, path, bytes, now)),
            ),
            None => (m, None),
        }
    }
}

/// Whether the content of a file is needed: its size is not known, or it is
/// within the limit.
pub open spec fn worth_reading(m: StoreModel, stat_len: Option<usize>) -> bool {
    match stat_len {
        Some(len) => len <= m.max_file_size,
        None => true,
    }
}

/// What an optional entry says.
pub open spec fn entry_model(e: Option<DiffEntry>) -> Option<EntryModel> {
    match e {
        Some(entry) => Some(entry@),
        None => None,
    }
}

impl DiffStore {
    /// Whether a file on disk has to be read to record its change.  A file that
    /// is reported to be over the limit is recorded without being read; one
    /// whose size could not be determined is read all the same.
    pub fn needs_read(&self, stat_len: Option<usize>) -> (r: bool)
        ensures
            r == worth_reading(self@, stat_len),
    {
        match stat_len {
            Some(len) => len <= self.max_file_size,
            None => true,
        }
    }

    /// Records a change of a file on disk at the time `now`, given the size
    /// that was reported for it (if any) and the content that was read (if
    /// any).  Returns `None` if the content was needed and could not be read.
    pub fn record_change_from_disk_at(
        &mut self,
        normalized: &str,
        stat_len: Option<usize>,
        content: Option<&[u8]>,
        now: u64,
    ) -> (r: Option<DiffEntry>)
        requires
            old(self).wf(),
        ensures
            final(self).wf(),
            (final(self)@, entry_model(r)) == recorded_from_disk(
                old(self)@,
                normalized@,
                stat_len,
                crate::diff::bytes_of(content),
                now,
            ),
    {
        if let Some(len) = stat_len {
            if len > self.max_file_size {
                return Some(self.record_oversized(normalized, len, now));
            }
        }
        match content {
            Some(bytes) => self.record_change_at(normalized, bytes, now),
            None => None,
        }
    }

    /// Records a change of a file on disk now.
    ///
    /// See [`DiffStore::record_change_from_disk_at`].
    pub fn record_change_from_disk(
        &mut self,
        normalized: &str,
        stat_len: Option<usize>,
        content: Option<&[u8]>,
    ) -> (r: Option<DiffEntry>)
        requires
            old(self).wf(),
        ensures
            final(self).wf(),
            exists|now: u64|
                (final(self)@, entry_model(r)) == #[trigger] recorded_from_disk(
                    old(self)@,
                    normalized@,
                    stat_len,
                    crate::diff::bytes_of(content),
                    now,
                ),
    {
        let now: u64 = timestamp_of(clock_seconds());
        self.record_change_from_disk_at(normalized, stat_len, content, now)
    }

    /// The latest entry for `path`, if any.
    pub fn get_latest(&self, path: &str) -> (r: Option<&DiffEntry>)
        requires
            self.wf(),
        ensures
            match r {
                Some(entry) => latest(self@, path@) == Some(entry@),
                None => latest(self@, path@) is None,
            },
    {
        proof {
            self.lemma_tables();
        }
        match self.tracked_files.get(path) {
            Some(ring) => {
                assert(self@.histories.contains_key(path@));
                assert(entry_models(ring@).len() == ring@.len());
                Some(&ring[ring.len() - 1])
            },
            None => None,
        }
    }

    /// The entries for `path`, oldest first.
    pub fn get_history(&self, path: &str) -> (r: Vec<&DiffEntry>)
        requires
            self.wf(),
        ensures
            r@.len() == history(self@, path@).len(),
            forall|i: int|
                0 <= i < r@.len() ==> (#[trigger] r@[i])@ == history(self@, path@)[i],
    {
        proof {
            self.lemma_tables();
        }
        let mut r: Vec<&DiffEntry> = Vec::new();
        match self.tracked_files.get(path) {
            Some(ring) => {
                assert(self@.histories.contains_key(path@));
                let mut i: usize = 0;
                while i < ring.len()
                    invariant
                        i <= ring@.len(),
                        r@.len() == i,
                        history(self@, path@) == entry_models(ring@),
                        forall|j: int|
                            0 <= j < i ==> (#[trigger] r@[j])@ == history(self@, path@)[j],
                    decreases ring@.len() - i,
                {
                    r.push(&ring[i]);
                    i = i + 1;
                }
            },
            None => {},
        }
        r
    }

    /// The tracked paths, in the order in which they came in.
    pub fn list_keys(&self) -> (r: Vec<&str>)
        ensures
            r@.len() == self@.keys.len(),
            forall|i: int| 0 <= i < r@.len() ==> (#[trigger] r@[i])@ == self@.keys[i],
    {
        let mut r: Vec<&str> = Vec::new();
        let mut i: usize = 0;
        while i < self.tracked_files.len()
            invariant
                i <= self@.keys.len(),
                r@.len() == i,
                self@.keys == self.tracked_files.keys(),
                forall|j: int| 0 <= j < i ==> (#[trigger] r@[j])@ == self@.keys[j],
            decreases self@.keys.len() - i,
        {
            r.push(self.tracked_files.key_at(i).as_str());
            i = i + 1;
        }
        r
    }

    /// The snapshot of `path`, if there is one.
    pub fn snapshot(&self, path: &str) -> (r: Option<&Vec<u8>>)
        requires
            self.wf(),
        ensures
            match r {
                Some(bytes) => snapshot_of(self@, path@) == Some(bytes@),
                None => snapshot_of(self@, path@) is None,
            },
    {
        proof {
            self.lemma_tables();
        }
        self.snapshots.get(path)
    }

    /// The number of paths with a snapshot.
    pub fn snapshot_count(&self) -> (n: usize)
        requires
            self.wf(),
        ensures
            n == self@.snapshots.dom().len(),
    {
        proof {
            let keys = self.snapshots.keys();
            self.lemma_tables();
            self.snapshots.lemma_domain();
            assert(self@.snapshots.dom() =~= keys.to_set());
            keys.unique_seq_to_set();
        }
        self.snapshots.len()
    }

    /// The store's bounds and how much of them is in use.  The number of
    /// entries is counted as far as `usize` goes.
    pub fn summary(&self) -> (s: StoreSummary)
        requires
            self.wf(),
        ensures
            s == summary_of(self@),
    {
        proof {
            self.lemma_tables();
        }
        let mut total: usize = 0;
        let mut i: usize = 0;
        while i < self.tracked_files.len()
            invariant
                self.wf(),
                i <= self@.keys.len(),
                self@.keys == self.tracked_files.keys(),
                forall|k: Seq<char>| #[trigger]
                    self@.histories.contains_key(k) ==> self@.histories[k] == entry_models(
                        self.tracked_files@[k]@,
                    ),
                forall|k: Seq<char>| #[trigger]
                    self@.histories.contains_key(k) <==> self@.keys.contains(k),
                total == saturated(count_entries(self@.histories, self@.keys.take(i as int))),
            decreases self@.keys.len() - i,
        {
            let ring = self.tracked_files.value_at(i);
            proof {
                let keys = self@.keys;
                let k = keys[i as int];
                assert(keys.contains(k));
                assert(self@.histories.contains_key(k));
                assert(self@.histories[k].len() == ring@.len());
                assert(keys.take(i + 1).drop_last() =~= keys.take(i as int));
                assert(keys.take(i + 1).last() == k);
            }
            total = total.saturating_add(ring.len());
            i = i + 1;
        }
        assert(self@.keys.take(self@.keys.len() as int) =~= self@.keys);
        StoreSummary {
            tracked_files: self.tracked_files.len(),
            total_diffs: total,
            capacity: self.capacity,
            max_keys: self.max_keys,
            max_file_size: self.max_file_size,
        }
    }

    /// Drops all entries and snapshots.
    pub fn clear(&mut self)
        requires
            old(self).wf(),
        ensures
            final(self).wf(),
            final(self)@ == empty_store(
                old(self)@.capacity,
                old(self)@.max_keys,
                old(self)@.max_file_size,
            ),
    {
        self.tracked_files.clear();
        self.snapshots.clear();
        proof {
            assert(self@.histories =~= Map::<Seq<char>, Seq<EntryModel>>::empty());
            assert(self@.snapshots =~= Map::<Seq<char>, Seq<u8>>::empty());
        }
    }

    /// Drops the entries and the snapshot of `path`.  Returns whether the path
    /// was tracked.
    pub fn remove(&mut self, path: &str) -> (existed: bool)
        requires
            old(self).wf(),
        ensures
            final(self).wf(),
            existed == old(self)@.keys.contains(path@),
            final(self)@ == removed(old(self)@, path@),
    {
        let ghost before = *self;
        let existed: bool = self.tracked_files.remove(path);
        let _had_snapshot = self.snapshots.remove(path);
        proof {
            before.lemma_tables();
            assert(existed == before@.histories.contains_key(path@));
            self.lemma_tables();
            assert(self@.histories =~= before@.histories.remove(path@));
            assert(self@.snapshots =~= before@.snapshots.remove(path@));
            law_removal_is_bounded(before@, path@);
        }
        existed
    }
}

/// A number as far as `usize` goes.
pub open spec fn saturated(n: nat) -> usize {
    if n <= usize::MAX {
        n as usize
    } else {
        usize::MAX
    }
}

/// The summary of a store.
pub open spec fn summary_of(m: StoreModel) -> StoreSummary {
    StoreSummary {
        tracked_files: m.keys.len() as usize,
        total_diffs: saturated(count_entries(m.histories, m.keys)),
        capacity: m.capacity as usize,
        max_keys: m.max_keys as usize,
        max_file_size: m.max_file_size as usize,
    }
}

/// Recording a change keeps a store within its bounds, whatever was recorded.
pub proof fn law_recording_is_bounded(m: StoreModel, path: Seq<char>, content: Seq<u8>, now: u64)
    requires
        bounded(m),
    ensures
        bounded(recorded(m, path, content, now)),
{
    lemma_inserted_bounded(seeded(m, path, content), path, entry_for(m, path, content, now));
}

/// Removing a path keeps a store within its bounds, and the path is gone.
pub proof fn law_removal_is_bounded(m: StoreModel, path: Seq<char>)
    requires
        bounded(m),
    ensures
        bounded(removed(m, path)),
        !removed(m, path).keys.contains(path),
        latest(removed(m, path), path) is None,
        snapshot_of(removed(m, path), path) is None,
{
    let r = removed(m, path);
    if m.keys.contains(path) {
        let p = crate::ordered::position(m.keys, path);
        assert(m.keys[p] == path);
        assert forall|i: int, j: int| 0 <= i < j < r.keys.len() implies r.keys[i] != r.keys[j] by {
            let x = if i < p { i } else { i + 1 };
            let y = if j < p { j } else { j + 1 };
            assert(r.keys[i] == m.keys[x]);
            assert(r.keys[j] == m.keys[y]);
        }
        assert forall|k: Seq<char>| #[trigger] r.histories.contains_key(k) <==> r.keys.contains(
            k,
        ) by {
            if r.keys.contains(k) {
                let i = choose|i: int| 0 <= i < r.keys.len() && r.keys[i] == k;
                let x = if i < p { i } else { i + 1 };
                assert(m.keys[x] == k);
                assert(m.keys.contains(k));
            }
            if r.histories.contains_key(k) {
                assert(m.histories.contains_key(k));
                let x = choose|x: int| 0 <= x < m.keys.len() && m.keys[x] == k;
                let i = if x < p { x } else { x - 1 };
                assert(r.keys[i] == k);
            }
        }
    } else {
        assert forall|k: Seq<char>| #[trigger] r.histories.contains_key(k) <==> r.keys.contains(
            k,
        ) by {
            assert(m.histories.contains_key(k) <==> m.keys.contains(k));
        }
    }
    assert forall|k: Seq<char>| #[trigger] r.histories.contains_key(k) implies 1
        <= r.histories[k].len() <= r.capacity by {
        assert(m.histories.contains_key(k));
    }
    assert forall|k: Seq<char>| #[trigger] r.snapshots.contains_key(k) implies r.snapshots[k].len()
        <= r.max_file_size by {
        assert(m.snapshots.contains_key(k));
    }
    assert(!r.histories.contains_key(path));
}

/// Something that is done to a store.
pub enum StoreOp {
    /// [`DiffStore::record_change_at`].
    Record { path: Seq<char>, content: Seq<u8>, now: u64 },
    /// [`DiffStore::record_change_from_disk_at`].
    RecordFromDisk {
        path: Seq<char>,
        stat_len: Option<usize>,
        content: Option<Seq<u8>>,
        now: u64,
    },
    /// [`DiffStore::seed_snapshot`].
    Seed { path: Seq<char>, content: Seq<u8> },
    /// [`DiffStore::remove`].
    Remove { path: Seq<char> },
    /// [`DiffStore::clear`].
    Clear,
}

/// The store after something was done to it.
pub open spec fn applied(m: StoreModel, op: StoreOp) -> StoreModel {
    match op {
        StoreOp::Record { path, content, now } => recorded(m, path, content, now),
        StoreOp::RecordFromDisk { path, stat_len, content, now } => recorded_from_disk(
            m,
            path,
            stat_len,
            content,
            now,
        ).0,
        StoreOp::Seed { path, content } => seeded(m, path, content),
        StoreOp::Remove { path } => removed(m, path),
        StoreOp::Clear => empty_store(m.capacity, m.max_keys, m.max_file_size),
    }
}

/// The store after some things were done to it, one after the other.
pub open spec fn applied_all(m: StoreModel, ops: Seq<StoreOp>) -> StoreModel
    decreases ops.len(),
{
    if ops.len() == 0 {
        m
    } else {
        applied(applied_all(m, ops.drop_last()), ops.last())
    }
}

/// Whatever is done to a new store, it stays within the bounds that it was made
/// with: no path is listed twice, at most `max_keys` paths are listed, which are
/// those with a history, each history has between one and `capacity` entries, all
/// for its path, and no snapshot is larger than `max_file_size`.
pub proof fn law_store_is_always_bounded(
    capacity: usize,
    max_keys: usize,
    max_file_size: usize,
    ops: Seq<StoreOp>,
)
    ensures
        ({
            let new = empty_store(
                at_least_one(capacity),
                at_least_one(max_keys),
                at_least_one(max_file_size),
            );
            let m = applied_all(new, ops);
            &&& bounded(m)
            &&& m.capacity == at_least_one(capacity)
            &&& m.max_keys == at_least_one(max_keys)
            &&& m.max_file_size == at_least_one(max_file_size)
        }),
    decreases ops.len(),
{
    if ops.len() > 0 {
        law_store_is_always_bounded(capacity, max_keys, max_file_size, ops.drop_last());
        let new = empty_store(
            at_least_one(capacity),
            at_least_one(max_keys),
            at_least_one(max_file_size),
        );
        let m = applied_all(new, ops.drop_last());
        match ops.last() {
            StoreOp::Record { path, content, now } => {
                law_recording_is_bounded(m, path, content, now);
            },
            StoreOp::RecordFromDisk { path, stat_len, content, now } => {
                if !worth_reading(m, stat_len) {
                    let entry = oversized_entry(m, path, stat_len->0 as nat, now);
                    lemma_inserted_bounded(m, path, entry);
                } else if content is Some {
                    law_recording_is_bounded(m, path, content->0, now);
                }
            },
            StoreOp::Seed { path, content } => {},
            StoreOp::Remove { path } => {
                law_removal_is_bounded(m, path);
            },
            StoreOp::Clear => {},
        }
    }
}

/// A bounded store has at most `capacity` entries for each path.
proof fn lemma_count_is_bounded(m: StoreModel, n: int)
    requires
        bounded(m),
        0 <= n <= m.keys.len(),
    ensures
        count_entries(m.histories, m.keys.take(n)) <= n * m.capacity,
    decreases n,
{
    let keys = m.keys.take(n);
    if n > 0 {
        lemma_count_is_bounded(m, n - 1);
        assert(keys.drop_last() =~= m.keys.take(n - 1));
        assert(m.keys.contains(m.keys[n - 1]));
        assert(m.histories.contains_key(keys.last()));
        assert(n * m.capacity == (n - 1) * m.capacity + m.capacity) by (nonlinear_arith);
    } else {
        assert(count_entries(m.histories, keys) == 0);
    }
}

/// The summary of a store that was made with some bounds gives these bounds and the
/// number of tracked paths, whatever was done to the store.  It counts the entries of
/// all tracked paths, as far as `usize` goes, and thus all of them where so many
/// entries as the bounds allow can be counted.  There are never more than `capacity`
/// for each tracked path.
pub proof fn law_summary_counts_what_is_kept(
    capacity: usize,
    max_keys: usize,
    max_file_size: usize,
    ops: Seq<StoreOp>,
)
    ensures
        ({
            let new = empty_store(
                at_least_one(capacity),
                at_least_one(max_keys),
                at_least_one(max_file_size),
            );
            let m = applied_all(new, ops);
            let s = summary_of(m);
            let count = count_entries(m.histories, m.keys);
            &&& s.tracked_files == m.keys.len()
            &&& count <= m.keys.len() * m.capacity
            &&& s.total_diffs <= s.tracked_files * s.capacity
            &&& s.total_diffs == saturated(count)
            &&& at_least_one(max_keys) * at_least_one(capacity) <= usize::MAX ==> s.total_diffs
                == count
            &&& s.capacity == at_least_one(capacity)
            &&& s.max_keys == at_least_one(max_keys)
            &&& s.max_file_size == at_least_one(max_file_size)
        }),
{
    law_store_is_always_bounded(capacity, max_keys, max_file_size, ops);
    let new = empty_store(
        at_least_one(capacity),
        at_least_one(max_keys),
        at_least_one(max_file_size),
    );
    let m = applied_all(new, ops);
    let n = m.keys.len();
    let (c, k) = (m.capacity, m.max_keys);
    lemma_count_is_bounded(m, n as int);
    assert(m.keys.take(n as int) =~= m.keys);
    assert(n * c <= k * c) by (nonlinear_arith)
        requires
            n <= k,
    ;
}

/// Paths that were only seeded are not counted: seeding leaves the summary as it is.
pub proof fn law_seeding_is_not_counted(m: StoreModel, path: Seq<char>, content: Seq<u8>)
    ensures
        summary_of(seeded(m, path, content)) == summary_of(m),
{
}

/// The latest entry of a path is the one that was recorded last, and its
/// snapshot is the content that was recorded, unless that was too large.
pub proof fn law_recorded_change_is_latest(
    m: StoreModel,
    path: Seq<char>,
    content: Seq<u8>,
    now: u64,
)
    requires
        bounded(m),
    ensures
        latest(recorded(m, path, content, now), path) == Some(entry_for(m, path, content, now)),
        snapshot_of(recorded(m, path, content, now), path) == if content.len() > m.max_file_size {
            snapshot_of(m, path)
        } else {
            Some(content)
        },
{
    let before = seeded(m, path, content);
    let room = with_room(before, path);
    let all = history(room, path).push(entry_for(m, path, content, now));
    assert(last_n(all, m.capacity).last() == all.last());
    if !(m.keys.contains(path) || m.keys.len() < m.max_keys) {
        assert(m.keys.contains(m.keys[0]));
        assert(m.keys[0] != path);
    }
}

/// A change of a tracked path gives up no path: the tracked paths, their order
/// and the histories and snapshots of the others stay as they are.
pub proof fn law_tracked_path_evicts_nothing(
    m: StoreModel,
    path: Seq<char>,
    content: Seq<u8>,
    now: u64,
    other: Seq<char>,
)
    requires
        bounded(m),
        m.keys.contains(path),
        other != path,
    ensures
        recorded(m, path, content, now).keys == m.keys,
        history(recorded(m, path, content, now), other) == history(m, other),
        snapshot_of(recorded(m, path, content, now), other) == snapshot_of(m, other),
{
}

/// A change of a new path in a full store gives up the path that came in first,
/// with its history and snapshot, and no other.
pub proof fn law_full_store_evicts_first_path(
    m: StoreModel,
    path: Seq<char>,
    content: Seq<u8>,
    now: u64,
    other: Seq<char>,
)
    requires
        bounded(m),
        !m.keys.contains(path),
        m.keys.len() == m.max_keys,
        other != path,
    ensures
        recorded(m, path, content, now).keys == m.keys.drop_first().push(path),
        history(recorded(m, path, content, now), other) == if other == m.keys[0] {
            Seq::empty()
        } else {
            history(m, other)
        },
        snapshot_of(recorded(m, path, content, now), other) == if other == m.keys[0] {
            None
        } else {
            snapshot_of(m, other)
        },
{
    let room = with_room(seeded(m, path, content), path);
    assert(!room.keys.contains(path)) by {
        if room.keys.contains(path) {
            let i = choose|i: int| 0 <= i < room.keys.len() && room.keys[i] == path;
            assert(m.keys[i + 1] == path);
        }
    }
}

/// Content over the limit is recorded as truncated and never kept: the path's
/// snapshot stays as it was.
pub proof fn law_oversized_content_is_not_kept(
    m: StoreModel,
    path: Seq<char>,
    content: Seq<u8>,
    now: u64,
)
    requires
        bounded(m),
        content.len() > m.max_file_size,
    ensures
        entry_for(m, path, content, now).truncated,
        snapshot_of(recorded(m, path, content, now), path) == snapshot_of(m, path),
{
    if !(m.keys.contains(path) || m.keys.len() < m.max_keys) {
        assert(m.keys.contains(m.keys[0]));
    }
}

/// Recording the same content twice in a row gives an empty diff the second
/// time, unless the content is binary or over the limit.
pub proof fn law_unchanged_content_has_empty_diff(
    m: StoreModel,
    path: Seq<char>,
    content: Seq<u8>,
    first: u64,
    second: u64,
)
    requires
        bounded(m),
        content.len() <= m.max_file_size,
        !crate::diff::undecodable(content),
    ensures
        entry_for(recorded(m, path, content, first), path, content, second).diff == Seq::<
            char,
        >::empty(),
        entry_for(recorded(m, path, content, first), path, content, second).old_size
            == content.len(),
{
    law_recorded_change_is_latest(m, path, content, first);
    if !(m.keys.contains(path) || m.keys.len() < m.max_keys) {
        assert(m.keys.contains(m.keys[0]));
    }
}

/// The store after changes of one path, each to a content at a time, in turn.
pub open spec fn recorded_all(
    m: StoreModel,
    path: Seq<char>,
    changes: Seq<(Seq<u8>, u64)>,
) -> StoreModel
    decreases changes.len(),
{
    if changes.len() == 0 {
        m
    } else {
        recorded(
            recorded_all(m, path, changes.drop_last()),
            path,
            changes.last().0,
            changes.last().1,
        )
    }
}

/// The entries of those changes.
pub open spec fn entries_for_all(
    m: StoreModel,
    path: Seq<char>,
    changes: Seq<(Seq<u8>, u64)>,
) -> Seq<EntryModel>
    decreases changes.len(),
{
    if changes.len() == 0 {
        Seq::empty()
    } else {
        let rest = changes.drop_last();
        entries_for_all(m, path, rest).push(
            entry_for(recorded_all(m, path, rest), path, changes.last().0, changes.last().1),
        )
    }
}

/// Cutting a sequence down before an item is added does not change what is
/// left of it afterwards.
proof fn lemma_last_n_push<T>(s: Seq<T>, x: T, n: nat)
    requires
        n >= 1,
    ensures
        last_n(last_n(s, n).push(x), n) == last_n(s.push(x), n),
{
    assert(last_n(last_n(s, n).push(x), n) =~= last_n(s.push(x), n));
}

/// However many changes of a path are recorded, its history is the last
/// `capacity` of all its entries, in order.
pub proof fn law_history_is_last_entries(
    m: StoreModel,
    path: Seq<char>,
    changes: Seq<(Seq<u8>, u64)>,
)
    requires
        bounded(m),
    ensures
        bounded(recorded_all(m, path, changes)),
        recorded_all(m, path, changes).capacity == m.capacity,
        history(recorded_all(m, path, changes), path) == last_n(
            history(m, path) + entries_for_all(m, path, changes),
            m.capacity,
        ),
    decreases changes.len(),
{
    if changes.len() == 0 {
        assert(history(m, path) + Seq::<EntryModel>::empty() =~= history(m, path));
        if m.histories.contains_key(path) {
            assert(m.histories[path].len() <= m.capacity);
        }
    } else {
        let rest = changes.drop_last();
        let (content, now) = changes.last();
        law_history_is_last_entries(m, path, rest);
        let before = recorded_all(m, path, rest);
        law_recording_is_bounded(before, path, content, now);
        let entry = entry_for(before, path, content, now);
        let all = history(m, path) + entries_for_all(m, path, rest);
        assert(history(m, path) + entries_for_all(m, path, changes) =~= all.push(entry));
        let ready = seeded(before, path, content);
        assert(history(with_room(ready, path), path) == history(before, path)) by {
            if !(before.keys.contains(path) || before.keys.len() < before.max_keys) {
                assert(before.keys.contains(before.keys[0]));
                assert(before.histories.contains_key(path) == before.keys.contains(path));
            }
        }
        lemma_last_n_push(all, entry, m.capacity);
    }
}

/// The previous content of a path, if the store knows one.
pub open spec fn known_content(m: StoreModel, path: Seq<char>) -> Option<Seq<u8>> {
    if m.snapshots.contains_key(path) {
        Some(m.snapshots[path])
    } else {
        None
    }
}

/// The entry of a change describes that change: the path, the time, the sizes of both
/// versions and the diff between them.  Content over the limit has a placeholder that
/// gives its size and the limit.
pub proof fn law_entry_describes_the_change(
    m: StoreModel,
    path: Seq<char>,
    content: Seq<u8>,
    now: u64,
)
    ensures
        ({
            let e = entry_for(m, path, content, now);
            let before = known_content(m, path);
            &&& e.path == path
            &&& e.timestamp == now
            &&& e.new_size == content.len()
            &&& before is Some ==> e.old_size == before->0.len()
            &&& before is None ==> e.old_size == 0
            &&& e.truncated <==> content.len() > m.max_file_size
            &&& !e.truncated ==> e.diff == diff_text(before, content) && e.binary
                == binary_change(before, content)
            &&& e.truncated ==> !e.binary && e.diff == "<file too large: "@ + decimal(
                content.len(),
            ) + " bytes, limit "@ + decimal(m.max_file_size) + " bytes>"@
        }),
{
}

/// A change is described against the content of its path that was recorded or seeded
/// before it.
pub proof fn law_change_is_seen_against_the_last_content(
    m: StoreModel,
    path: Seq<char>,
    first: Seq<u8>,
    second: Seq<u8>,
    now: u64,
    later: u64,
)
    requires
        bounded(m),
        first.len() <= m.max_file_size,
        second.len() <= m.max_file_size,
    ensures
        ({
            let e = entry_for(recorded(m, path, first, now), path, second, later);
            &&& e.old_size == first.len()
            &&& e.new_size == second.len()
            &&& e.diff == diff_text(Some(first), second)
            &&& e.timestamp == later
        }),
        ({
            let e = entry_for(seeded(m, path, first), path, second, later);
            &&& e.old_size == first.len()
            &&& e.diff == diff_text(Some(first), second)
        }),
{
    law_recorded_change_is_latest(m, path, first, now);
    if !(m.keys.contains(path) || m.keys.len() < m.max_keys) {
        assert(m.keys.contains(m.keys[0]));
    }
}

/// A change of a new path in a store with room adds the path after the others, with that
/// change as its only entry, and leaves everything else as it was.
pub proof fn law_new_path_comes_last(
    m: StoreModel,
    path: Seq<char>,
    content: Seq<u8>,
    now: u64,
    other: Seq<char>,
)
    requires
        bounded(m),
        !m.keys.contains(path),
        m.keys.len() < m.max_keys,
        other != path,
    ensures
        ({
            let r = recorded(m, path, content, now);
            &&& r.keys == m.keys.push(path)
            &&& r.histories.contains_key(path)
            &&& r.histories[path] == seq![entry_for(m, path, content, now)]
            &&& r.histories.contains_key(other) == m.histories.contains_key(other)
            &&& m.histories.contains_key(other) ==> r.histories[other] == m.histories[other]
            &&& known_content(r, other) == known_content(m, other)
            &&& r.capacity == m.capacity && r.max_keys == m.max_keys && r.max_file_size
                == m.max_file_size
        }),
{
    let r = recorded(m, path, content, now);
    assert(!m.histories.contains_key(path));
    assert(Seq::<EntryModel>::empty().push(entry_for(m, path, content, now)) =~= seq![
        entry_for(m, path, content, now),
    ]);
    assert(r.histories[path] =~= seq![entry_for(m, path, content, now)]);
}

/// A recorded change comes after the earlier ones of its path, of which the oldest goes
/// once there are more than `capacity`.
pub proof fn law_oldest_entry_goes_first(
    m: StoreModel,
    path: Seq<char>,
    content: Seq<u8>,
    now: u64,
)
    requires
        bounded(m),
        m.keys.contains(path),
    ensures
        ({
            let e = entry_for(m, path, content, now);
            let old = m.histories[path];
            let new = recorded(m, path, content, now).histories[path];
            &&& old.len() < m.capacity ==> new == old.push(e)
            &&& old.len() == m.capacity ==> new == old.drop_first().push(e)
        }),
{
    let e = entry_for(m, path, content, now);
    assert(m.histories.contains_key(path));
    let old = m.histories[path];
    let new = recorded(m, path, content, now).histories[path];
    assert(old.len() <= m.capacity);
    if old.len() == m.capacity {
        assert(new =~= old.drop_first().push(e));
    }
}

/// Seeding sets what is known of one path, if that is within the limit, and nothing else.
pub proof fn law_seeding_sets_known_content_only(
    m: StoreModel,
    path: Seq<char>,
    content: Seq<u8>,
    other: Seq<char>,
)
    ensures
        ({
            let r = seeded(m, path, content);
            &&& content.len() <= m.max_file_size ==> known_content(r, path) == Some(content)
            &&& content.len() > m.max_file_size ==> known_content(r, path) == known_content(m, path)
            &&& other != path ==> known_content(r, other) == known_content(m, other)
            &&& r.keys == m.keys && r.histories == m.histories
            &&& r.capacity == m.capacity && r.max_keys == m.max_keys && r.max_file_size
                == m.max_file_size
        }),
{
}

/// Removing a path leaves nothing of it and everything of the others, in the same order.
pub proof fn law_removing_leaves_the_others(
    m: StoreModel,
    before: Seq<Seq<char>>,
    path: Seq<char>,
    after: Seq<Seq<char>>,
    other: Seq<char>,
)
    requires
        bounded(m),
        m.keys == before.push(path) + after,
        other != path,
    ensures
        ({
            let r = removed(m, path);
            &&& r.keys == before + after
            &&& !r.histories.contains_key(path)
            &&& known_content(r, path) is None
            &&& r.histories.contains_key(other) == m.histories.contains_key(other)
            &&& m.histories.contains_key(other) ==> r.histories[other] == m.histories[other]
            &&& known_content(r, other) == known_content(m, other)
            &&& r.capacity == m.capacity && r.max_keys == m.max_keys && r.max_file_size
                == m.max_file_size
        }),
{
    let n = before.len() as int;
    assert(m.keys[n] == path);
    assert(!before.contains(path)) by {
        if before.contains(path) {
            let i = choose|i: int| 0 <= i < before.len() && before[i] == path;
            assert(m.keys[i] == path);
        }
    }
    assert(!after.contains(path)) by {
        if after.contains(path) {
            let i = choose|i: int| 0 <= i < after.len() && after[i] == path;
            assert(m.keys[n + 1 + i] == path);
        }
    }
    crate::ordered::law_other_keys_stay_in_order(before, path, after);
}

/// A file that is reported to be over the limit is recorded by its reported size, whatever
/// was read.  A file that could not be read is not recorded.  Any other is recorded by
/// what was read.
pub proof fn law_change_on_disk(
    m: StoreModel,
    path: Seq<char>,
    stat_len: Option<usize>,
    content: Option<Seq<u8>>,
    now: u64,
)
    requires
        bounded(m),
    ensures
        ({
            let (r, e) = recorded_from_disk(m, path, stat_len, content, now);
            let reported_too_large = stat_len is Some && stat_len->0 > m.max_file_size;
            &&& reported_too_large ==> {
                &&& e is Some && e->0.truncated && !e->0.binary
                &&& e->0.path == path && e->0.timestamp == now
                &&& e->0.new_size == stat_len->0
                &&& e->0.old_size == match known_content(m, path) {
                    Some(bytes) => bytes.len(),
                    None => 0,
                }
                &&& e->0.diff == "<file too large: "@ + decimal(stat_len->0 as nat)
                    + " bytes, limit "@ + decimal(m.max_file_size) + " bytes>"@
                &&& r.histories.contains_key(path) && r.histories[path].last() == e->0
                &&& known_content(r, path) == known_content(m, path)
            }
            &&& !reported_too_large && content is None ==> e is None && r == m
            &&& !reported_too_large && content is Some ==> e == Some(
                entry_for(m, path, content->0, now),
            ) && r == recorded(m, path, content->0, now)
        }),
{
    if !worth_reading(m, stat_len) {
        let entry = oversized_entry(m, path, stat_len->0 as nat, now);
        let room = with_room(m, path);
        let all = history(room, path).push(entry);
        assert(last_n(all, m.capacity).last() == all.last());
        if !(m.keys.contains(path) || m.keys.len() < m.max_keys) {
            assert(m.keys.contains(m.keys[0]));
            assert(m.keys[0] != path);
        }
    }
}

/// The entries are counted path by path.
pub proof fn law_entries_are_counted_path_by_path(
    histories: Map<Seq<char>, Seq<EntryModel>>,
    before: Seq<Seq<char>>,
    key: Seq<char>,
    after: Seq<Seq<char>>,
)
    ensures
        count_entries(histories, before.push(key) + after) == count_entries(histories, before)
            + histories[key].len() + count_entries(histories, after),
        count_entries(histories, Seq::empty()) == 0,
    decreases after.len(),
{
    let all = before.push(key) + after;
    if after.len() == 0 {
        assert(all =~= before.push(key));
        assert(all.drop_last() =~= before);
    } else {
        law_entries_are_counted_path_by_path(histories, before, key, after.drop_last());
        assert(all.drop_last() =~= before.push(key) + after.drop_last());
    }
}

/// The history of a path is what is kept of it, oldest first, and its latest entry is the
/// last of them.
pub proof fn law_latest_entry_is_the_last(m: StoreModel, path: Seq<char>)
    requires
        bounded(m),
    ensures
        m.histories.contains_key(path) ==> history(m, path) == m.histories[path] && latest(m, path)
            == Some(m.histories[path][m.histories[path].len() - 1]),
        !m.histories.contains_key(path) ==> history(m, path).len() == 0 && latest(m, path) is None,
{
}

/// Bounds of zero are raised to one, and any other bound is taken as it is.
pub proof fn law_bounds_are_at_least_one(n: usize)
    ensures
        at_least_one(n) >= 1,
        n >= 1 ==> at_least_one(n) == n,
        n == 0 ==> at_least_one(n) == 1,
{
}

/// What the bounds of a store mean, in any state that it can reach: no path is listed
/// twice, a listed path has a history and no other has, and neither the paths nor the
/// entries of a path nor the content that is kept exceed their bounds.
pub proof fn law_bounds_hold_in_every_state(
    capacity: usize,
    max_keys: usize,
    max_file_size: usize,
    ops: Seq<StoreOp>,
    i: int,
    j: int,
    path: Seq<char>,
)
    requires
        capacity > 0,
        max_keys > 0,
        max_file_size > 0,
    ensures
        ({
            let m = applied_all(
                empty_store(capacity as nat, max_keys as nat, max_file_size as nat),
                ops,
            );
            &&& m.keys.len() <= max_keys
            &&& 0 <= i < j < m.keys.len() ==> m.keys[i] != m.keys[j]
            &&& m.histories.contains_key(path) <==> m.keys.contains(path)
            &&& m.histories.contains_key(path) ==> 1 <= m.histories[path].len() <= capacity
            &&& m.histories.contains_key(path) && 0 <= i < m.histories[path].len()
                ==> m.histories[path][i].path == path
            &&& m.snapshots.contains_key(path) ==> m.snapshots[path].len() <= max_file_size
        }),
{
    law_store_is_always_bounded(capacity, max_keys, max_file_size, ops);
}

/// A new or cleared store knows nothing.
pub proof fn law_empty_store_knows_nothing(
    capacity: nat,
    max_keys: nat,
    max_file_size: nat,
    path: Seq<char>,
)
    ensures
        ({
            let m = empty_store(capacity, max_keys, max_file_size);
            &&& m.keys.len() == 0
            &&& !m.histories.contains_key(path)
            &&& !m.snapshots.contains_key(path)
            &&& m.capacity == capacity && m.max_keys == max_keys && m.max_file_size
                == max_file_size
        }),
{
}

/// What is reported of an entry are its fields, each under its name.
pub proof fn law_reported_entry_has_its_fields(e: EntryModel)
    ensures
        ({
            let m = entry_json(e);
            &&& member(m, "path"@) == Some(JsonModel::Text(e.path))
            &&& member(m, "timestamp"@) == Some(JsonModel::Number(e.timestamp as int))
            &&& member(m, "diff"@) == Some(JsonModel::Text(e.diff))
            &&& member(m, "old_size"@) == Some(JsonModel::Number(e.old_size as int))
            &&& member(m, "new_size"@) == Some(JsonModel::Number(e.new_size as int))
            &&& member(m, "binary"@) == Some(JsonModel::Bool(e.binary))
            &&& member(m, "truncated"@) == Some(JsonModel::Bool(e.truncated))
            &&& member(m, "error"@) is None
        }),
{
    reveal_strlit("path");
    reveal_strlit("timestamp");
    reveal_strlit("diff");
    reveal_strlit("old_size");
    reveal_strlit("new_size");
    reveal_strlit("binary");
    reveal_strlit("truncated");
    reveal_strlit("error");
    assert("path"@[0] == 'p' && "timestamp"@[0] == 't' && "timestamp"@[1] == 'i' && "diff"@[0]
        == 'd' && "old_size"@[0] == 'o' && "new_size"@[0] == 'n' && "binary"@[0] == 'b'
        && "truncated"@[0] == 't' && "truncated"@[1] == 'r' && "error"@[0] == 'e');
}

/// What is reported of a summary are its fields, each under its name.
pub proof fn law_reported_summary_has_its_fields(s: StoreSummary)
    ensures
        ({
            let m = summary_json(s);
            &&& member(m, "tracked_files"@) == Some(JsonModel::Number(s.tracked_files as int))
            &&& member(m, "total_diffs"@) == Some(JsonModel::Number(s.total_diffs as int))
            &&& member(m, "capacity"@) == Some(JsonModel::Number(s.capacity as int))
            &&& member(m, "max_keys"@) == Some(JsonModel::Number(s.max_keys as int))
            &&& member(m, "max_file_size"@) == Some(JsonModel::Number(s.max_file_size as int))
        }),
{
    reveal_strlit("tracked_files");
    reveal_strlit("total_diffs");
    reveal_strlit("capacity");
    reveal_strlit("max_keys");
    reveal_strlit("max_file_size");
    assert("tracked_files"@.len() == 13 && "total_diffs"@.len() == 11 && "capacity"@[0] == 'c'
        && "capacity"@.len() == 8 && "max_keys"@[0] == 'm' && "max_keys"@.len() == 8
        && "max_file_size"@.len() == 13 && "tracked_files"@[0] == 't' && "max_file_size"@[0] == 'm');
}

/// The content of a file is needed unless it is reported to be over the limit.
pub proof fn law_file_is_read_unless_too_large(m: StoreModel, stat_len: Option<usize>)
    ensures
        worth_reading(m, stat_len) <==> stat_len is None || stat_len->0 <= m.max_file_size,
{
}

/// The placeholder gives the size of the file and the limit.
pub proof fn law_placeholder_gives_the_sizes(size: nat, limit: nat)
    ensures
        placeholder(size, limit) == "<file too large: "@ + decimal(size) + " bytes, limit "@
            + decimal(limit) + " bytes>"@,
{
}

/// A number that fits is counted as it is.
pub proof fn law_count_is_exact_where_it_fits(n: nat)
    ensures
        n <= usize::MAX ==> saturated(n) == n,
        n > usize::MAX ==> saturated(n) == usize::MAX,
{
}

/// An entry says what is in its fields, and a list of entries says that of each, in order.
pub proof fn law_entries_say_what_they_hold(entries: Seq<DiffEntry>, i: int, e: DiffEntry)
    ensures
        e@.path == e.path@,
        e@.timestamp == e.timestamp,
        e@.diff == e.diff@,
        e@.old_size == e.old_size,
        e@.new_size == e.new_size,
        e@.binary == e.binary,
        e@.truncated == e.truncated,
        entry_models(entries).len() == entries.len(),
        0 <= i < entries.len() ==> entry_models(entries)[i] == entries[i]@,
        entry_model(Some(e)) == Some(e@),
        entry_model(None) is None,
{
}

/// Removing a path that is not tracked leaves every tracked path and what is known of the
/// others.
pub proof fn law_removing_an_untracked_path(m: StoreModel, path: Seq<char>, other: Seq<char>)
    requires
        bounded(m),
        !m.keys.contains(path),
        other != path,
    ensures
        ({
            let r = removed(m, path);
            &&& r.keys == m.keys
            &&& r.histories == m.histories
            &&& known_content(r, path) is None
            &&& known_content(r, other) == known_content(m, other)
            &&& r.capacity == m.capacity && r.max_keys == m.max_keys && r.max_file_size
                == m.max_file_size
        }),
{
    assert(!m.histories.contains_key(path));
    assert(removed(m, path).histories =~= m.histories);
}

/// A file that is reported to be over the limit is recorded as if it had been read and found
/// to be that large, whatever its content: the entry and the store are the same.
pub proof fn law_reported_size_counts_like_content(
    m: StoreModel,
    path: Seq<char>,
    stat_len: usize,
    read: Option<Seq<u8>>,
    large: Seq<u8>,
    now: u64,
)
    requires
        stat_len > m.max_file_size,
        large.len() == stat_len,
    ensures
        recorded_from_disk(m, path, Some(stat_len), read, now) == (
            recorded(m, path, large, now),
            Some(entry_for(m, path, large, now)),
        ),
{
}

/// A change of a new path in a full store leaves that change as the only entry of the path,
/// and the bounds of the store as they are.
pub proof fn law_new_path_in_a_full_store(
    m: StoreModel,
    path: Seq<char>,
    content: Seq<u8>,
    now: u64,
)
    requires
        bounded(m),
        !m.keys.contains(path),
        m.keys.len() == m.max_keys,
    ensures
        ({
            let r = recorded(m, path, content, now);
            &&& r.histories.contains_key(path)
            &&& r.histories[path] == seq![entry_for(m, path, content, now)]
            &&& r.capacity == m.capacity && r.max_keys == m.max_keys && r.max_file_size
                == m.max_file_size
        }),
{
    let e = entry_for(m, path, content, now);
    assert(!m.histories.contains_key(path));
    assert(Seq::<EntryModel>::empty().push(e) =~= seq![e]);
    assert(recorded(m, path, content, now).histories[path] =~= seq![e]);
}

/// The summary of a store within its bounds counts its tracked paths and gives its bounds.
pub proof fn law_summary_of_a_bounded_store(m: StoreModel)
    requires
        bounded(m),
        m.capacity <= usize::MAX,
        m.max_keys <= usize::MAX,
        m.max_file_size <= usize::MAX,
    ensures
        summary_of(m).tracked_files == m.keys.len(),
        count_entries(m.histories, m.keys) <= usize::MAX ==> summary_of(m).total_diffs
            == count_entries(m.histories, m.keys),
        summary_of(m).capacity == m.capacity,
        summary_of(m).max_keys == m.max_keys,
        summary_of(m).max_file_size == m.max_file_size,
{
}

} // verus!
