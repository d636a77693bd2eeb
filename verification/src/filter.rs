//! Glob-based path filtering for the file watcher.
//!
//! Provides utilities to build include/exclude glob sets and decide whether a
//! given path should be processed or skipped.

use crate::globs::{
    any_matches, build_set, gather, glob_matches, glob_valid, globs_compile, set_matches,
    set_patterns, texts, valid_patterns,
};
use crate::path::{
    components, law_only_a_leading_path_is_stripped, law_stripped_path_continues_base, strip_prefix,
    stripped,
};
use globset::GlobSet;
use vstd::prelude::*;
use vstd::string::*;

verus! {

/// Directory and file patterns that are always excluded, unless a config watches the
/// file explicitly.
pub const DEFAULT_EXCLUDES: [&'static str; 9] = [
    "target/**",
    ".git/**",
    "node_modules/**",
    "**/*.tmp",
    "**/*.swp",
    "**/.DS_Store",
    "**/Thumbs.db",
    "**/*.lock",
    "**/quay.yaml",
];

/// The patterns that are excluded by default.
pub open spec fn default_excludes() -> Seq<Seq<char>> {
    DEFAULT_EXCLUDES@.map_values(|p: &str| p@)
}

/// Compiled include and exclude patterns.  Those that are excluded by default are kept
/// apart from those that the user excludes.
#[derive(Debug, Clone)]
pub struct PathFilter {
    include_set: Option<GlobSet>,
    exclude_set: Option<GlobSet>,
    default_set: Option<GlobSet>,
}

/// What a list of patterns compiles to: the valid ones, or nothing if there are
/// none or they cannot be compiled.
pub open spec fn compiled(patterns: Seq<Seq<char>>) -> Option<Seq<Seq<char>>> {
    let valid = valid_patterns(patterns);
    if valid.len() > 0 && globs_compile(valid) {
        Some(valid)
    } else {
        None
    }
}

/// The patterns of an optional set.
pub open spec fn patterns_of(set: Option<GlobSet>) -> Option<Seq<Seq<char>>> {
    match set {
        Some(gs) => Some(set_patterns(gs)),
        None => None,
    }
}

/// Whether one of the patterns, if there are any, matches a path.
pub open spec fn matched(patterns: Option<Seq<Seq<char>>>, path: Seq<char>) -> bool {
    patterns is Some && any_matches(patterns->0, path)
}

/// Whether a path passes a filter apart from the default excludes: no exclude pattern
/// matches it and, where there are include patterns, one of them does.
pub open spec fn selected(
    includes: Option<Seq<Seq<char>>>,
    excludes: Option<Seq<Seq<char>>>,
    path: Seq<char>,
) -> bool {
    &&& !matched(excludes, path)
    &&& includes is Some ==> matched(includes, path)
}

/// Whether a path passes a filter: it is selected, and no default exclude matches it.
pub open spec fn allowed(
    includes: Option<Seq<Seq<char>>>,
    excludes: Option<Seq<Seq<char>>>,
    defaults: Option<Seq<Seq<char>>>,
    path: Seq<char>,
) -> bool {
    selected(includes, excludes, path) && !matched(defaults, path)
}

/// Whether a path is handled, given whether a config watches it: a default exclude
/// does not apply to a path that is watched.
pub open spec fn admitted(
    includes: Option<Seq<Seq<char>>>,
    excludes: Option<Seq<Seq<char>>>,
    defaults: Option<Seq<Seq<char>>>,
    watched: bool,
    path: Seq<char>,
) -> bool {
    selected(includes, excludes, path) && (watched || !matched(defaults, path))
}

impl PathFilter {
    /// The compiled include patterns, if there are any.
    pub closed spec fn includes(&self) -> Option<Seq<Seq<char>>> {
        patterns_of(self.include_set)
    }

    /// The compiled exclude patterns of the user, if there are any.
    pub closed spec fn excludes(&self) -> Option<Seq<Seq<char>>> {
        patterns_of(self.exclude_set)
    }

    /// The compiled patterns that are excluded by default, if there are any.
    pub closed spec fn defaults(&self) -> Option<Seq<Seq<char>>> {
        patterns_of(self.default_set)
    }

    /// Builds a filter from include and exclude patterns.  Invalid patterns are
    /// skipped.
    pub fn new(includes: &[String], excludes: &[String]) -> (f: Self)
        ensures
            f.includes() == compiled(texts(includes@)),
            f.excludes() == compiled(texts(excludes@)),
            f.defaults() is None,
    {
        PathFilter {
            include_set: build_glob_set(includes),
            exclude_set: build_glob_set(excludes),
            default_set: None,
        }
    }

    /// Builds a filter that excludes [`DEFAULT_EXCLUDES`] and any additional
    /// patterns (such as the `ignore` lists of the configs).
    pub fn with_defaults(extra_excludes: &[String]) -> (f: Self)
        ensures
            f.includes() is None,
            f.excludes() == compiled(texts(extra_excludes@)),
            f.defaults() == compiled(default_excludes()),
    {
        let defaults = DEFAULT_EXCLUDES;
        let mut patterns: Vec<String> = Vec::new();
        let mut i: usize = 0;
        while i < defaults.len()
            invariant
                i <= defaults@.len() == 9,
                defaults@ == DEFAULT_EXCLUDES@,
                texts(patterns@) =~= default_excludes().take(i as int),
            decreases defaults@.len() - i,
        {
            let ghost before = texts(patterns@);
            let pattern: &str = defaults[i];
            patterns.push(pattern.to_owned());
            proof {
                assert(default_excludes()[i as int] == pattern@);
                assert(texts(patterns@) =~= before.push(pattern@));
                assert(default_excludes().take(i + 1) =~= default_excludes().take(i as int).push(
                    pattern@,
                ));
            }
            i = i + 1;
        }
        assert(default_excludes().take(9) =~= default_excludes());
        PathFilter {
            include_set: None,
            exclude_set: build_glob_set(extra_excludes),
            default_set: build_glob_set(patterns.as_slice()),
        }
    }

    /// Decides whether a given path should be handled.
    ///
    /// 1. If the path matches an **exclude** pattern, one of the user or a default
    ///    one, it is not.
    /// 2. If include patterns exist and the path matches none of them, it is
    ///    not.
    /// 3. Otherwise it is.
    pub fn is_allowed(&self, path: &str) -> (r: bool)
        ensures
            r == allowed(self.includes(), self.excludes(), self.defaults(), path@),
    {
        self.is_admitted(path, false)
    }

    /// Decides whether a given path should be handled, knowing whether a config
    /// watches it.  A default exclude does not apply to a path that is watched; an
    /// exclude pattern of the user does.
    pub fn is_admitted(&self, path: &str, watched: bool) -> (r: bool)
        ensures
            r == admitted(self.includes(), self.excludes(), self.defaults(), watched, path@),
    {
        if let Some(exc) = &self.exclude_set {
            if set_matches(exc, path) {
                return false;
            }
        }
        if !watched {
            if let Some(exc) = &self.default_set {
                if set_matches(exc, path) {
                    return false;
                }
            }
        }
        if let Some(inc) = &self.include_set {
            return set_matches(inc, path);
        }
        true
    }
}

/// Compiles patterns into a set.
///
/// Returns `None` when there is no valid pattern or the patterns cannot be
/// compiled.  Invalid patterns are skipped.
pub fn build_glob_set(patterns: &[String]) -> (r: Option<GlobSet>)
    ensures
        patterns_of(r) == compiled(texts(patterns@)),
{
    let (builder, count): (globset::GlobSetBuilder, usize) = gather(patterns);
    if count == 0 {
        return None;
    }
    match build_set(&builder) {
        Ok(set) => Some(set),
        Err(_) => None,
    }
}

/// The text with every backslash turned into a slash.
pub open spec fn forward_slashes(s: Seq<char>) -> Seq<char> {
    s.map_values(
        |c: char|
            if c == '\\' {
                '/'
            } else {
                c
            },
    )
}

/// Turns a path to forward slashes so that matching works consistently across
/// platforms.
pub fn normalize_path(p: &str) -> (r: String)
    ensures
        r@ == forward_slashes(p@),
{
    let mut r: String = String::new();
    for c in it: p.chars()
        invariant
            r@ == forward_slashes(it.seq().take(it.index() as int)),
            it.seq() == p@,
    {
        r.push(
            if c == '\\' {
                '/'
            } else {
                c
            },
        );
        assert(r@ =~= forward_slashes(it.seq().take(it.index() as int + 1)));
    }
    assert(p@.take(p@.len() as int) =~= p@);
    r
}

/// `path` relative to `root` and with forward slashes; a path outside of `root`
/// stays as it is but for the slashes.
pub open spec fn relativized(path: Seq<char>, root: Seq<char>) -> Seq<char> {
    match stripped(path, root) {
        Some(rest) => forward_slashes(rest),
        None => forward_slashes(path),
    }
}

/// Returns `path` relative to `root`, with forward slashes.
///
/// File-system events carry **absolute** paths, but patterns are written
/// relative to the watch root and are anchored at the start of the path, so a
/// path has to be made relative before it is matched.  A path that is not under
/// `root` is returned whole.
pub fn relativize_to_root(path: &str, root: &str) -> (r: String)
    ensures
        r@ == relativized(path@, root@),
{
    match strip_prefix(path, root) {
        Some(rest) => normalize_path(rest.as_str()),
        None => normalize_path(path),
    }
}

/// A normalized path has no backslash and stays as it is when it is normalized
/// again.
pub proof fn law_normalized_path_is_stable(p: Seq<char>)
    ensures
        !forward_slashes(p).contains('\\'),
        forward_slashes(forward_slashes(p)) == forward_slashes(p),
        forward_slashes(p).len() == p.len(),
{
    assert(forward_slashes(forward_slashes(p)) =~= forward_slashes(p));
}

/// Exclusion wins: a path that an exclude pattern of the user matches is not handled,
/// whatever is included and whether or not it is watched.
pub proof fn law_exclude_wins(
    includes: Option<Seq<Seq<char>>>,
    excludes: Seq<Seq<char>>,
    defaults: Option<Seq<Seq<char>>>,
    watched: bool,
    path: Seq<char>,
)
    requires
        any_matches(excludes, path),
    ensures
        !admitted(includes, Some(excludes), defaults, watched, path),
{
}

/// Watching a path sets the default excludes aside for it, and nothing else: what is
/// not watched is handled exactly if the filter allows it.
pub proof fn law_watching_overrides_default_excludes(
    includes: Option<Seq<Seq<char>>>,
    excludes: Option<Seq<Seq<char>>>,
    defaults: Option<Seq<Seq<char>>>,
    path: Seq<char>,
)
    ensures
        admitted(includes, excludes, defaults, true, path) == allowed(
            includes,
            excludes,
            None,
            path,
        ),
        admitted(includes, excludes, defaults, false, path) == allowed(
            includes,
            excludes,
            defaults,
            path,
        ),
{
}

/// Without patterns every path is allowed.
pub proof fn law_empty_filter_allows_everything(path: Seq<char>)
    ensures
        allowed(compiled(Seq::empty()), compiled(Seq::empty()), None, path),
{
    reveal(Seq::filter);
}

/// Additional exclude patterns never allow what was excluded without them.
pub proof fn law_extra_patterns_only_exclude(
    extra: Option<Seq<Seq<char>>>,
    defaults: Option<Seq<Seq<char>>>,
    path: Seq<char>,
)
    requires
        !allowed(None, None, defaults, path),
    ensures
        !allowed(None, extra, defaults, path),
{
}

/// The valid patterns are those that are there and valid.
proof fn lemma_valid_patterns_contain(patterns: Seq<Seq<char>>, p: Seq<char>)
    ensures
        valid_patterns(patterns).contains(p) <==> patterns.contains(p) && glob_valid(p),
{
    let valid = |q: Seq<char>| glob_valid(q);
    if patterns.contains(p) && valid(p) {
        let i = choose|i: int| 0 <= i < patterns.len() && patterns[i] == p;
        patterns.lemma_filter_contains(valid, i);
    }
    if patterns.filter(valid).contains(p) {
        let i = choose|i: int| 0 <= i < patterns.filter(valid).len() && patterns.filter(valid)[i]
            == p;
        patterns.lemma_filter_pred(valid, i);
        patterns.lemma_filter_contains_rev(valid, p);
    }
}

/// What patterns exclude is what any valid one among them matches, as long as they can
/// be compiled: an invalid pattern takes nothing from the others.
pub proof fn law_every_valid_pattern_counts(patterns: Seq<Seq<char>>, path: Seq<char>)
    requires
        globs_compile(valid_patterns(patterns)),
    ensures
        matched(compiled(patterns), path) <==> exists|i: int|
            0 <= i < patterns.len() && glob_valid(patterns[i]) && #[trigger] glob_matches(
                patterns[i],
                path,
            ),
{
    let valid = valid_patterns(patterns);
    if exists|i: int|
        0 <= i < patterns.len() && glob_valid(patterns[i]) && #[trigger] glob_matches(
            patterns[i],
            path,
        ) {
        let i = choose|i: int|
            0 <= i < patterns.len() && glob_valid(patterns[i]) && #[trigger] glob_matches(
                patterns[i],
                path,
            );
        assert(patterns.contains(patterns[i]));
        lemma_valid_patterns_contain(patterns, patterns[i]);
        let j = choose|j: int| 0 <= j < valid.len() && valid[j] == patterns[i];
        assert(glob_matches(valid[j], path));
    }
    if matched(compiled(patterns), path) {
        let j = choose|j: int| 0 <= j < valid.len() && #[trigger] glob_matches(valid[j], path);
        assert(valid.contains(valid[j]));
        lemma_valid_patterns_contain(patterns, valid[j]);
        let i = choose|i: int| 0 <= i < patterns.len() && patterns[i] == valid[j];
        assert(glob_matches(patterns[i], path));
    }
}

/// Normalizing changes backslashes and nothing else: at each position stands a slash in
/// place of a backslash, or the very character of the path.
pub proof fn law_normalizing_changes_backslashes_only(p: Seq<char>, i: int)
    ensures
        forward_slashes(p).len() == p.len(),
        0 <= i < p.len() && p[i] == '\\' ==> forward_slashes(p)[i] == '/',
        0 <= i < p.len() && p[i] != '\\' ==> forward_slashes(p)[i] == p[i],
        !p.contains('\\') ==> forward_slashes(p) == p,
{
    if !p.contains('\\') {
        assert forall|j: int| 0 <= j < p.len() implies forward_slashes(p)[j] == p[j] by {
            assert(p.contains(p[j]));
        }
        assert(forward_slashes(p) =~= p);
    }
}

/// A path under the root is matched by what is left of it below the root, any other by
/// its whole text.
pub proof fn law_path_is_taken_relative_to_the_root(path: Seq<char>, root: Seq<char>)
    requires
        !path.contains('\\'),
    ensures
        components(root).is_prefix_of(components(path)) ==> components(root) + components(
            relativized(path, root),
        ) == components(path),
        !components(root).is_prefix_of(components(path)) ==> relativized(path, root) == path,
{
    law_only_a_leading_path_is_stripped(path, root);
    law_normalizing_changes_backslashes_only(path, 0);
    if stripped(path, root) is Some {
        let rest = stripped(path, root)->0;
        law_stripped_path_continues_base(path, root);
        assert(!rest.contains('\\')) by {
            if rest.contains('\\') {
                let (i, j) = choose|i: int, j: int|
                    0 <= i <= j <= path.len() && rest == #[trigger] path.subrange(i, j);
                let k = choose|k: int| 0 <= k < rest.len() && rest[k] == '\\';
                assert(path[i + k] == '\\');
            }
        }
        law_normalizing_changes_backslashes_only(rest, 0);
    }
}

/// A path is handled exactly if no exclude pattern of the user matches it, some include
/// pattern does where there are any, and no default exclude does, unless it is watched.
pub proof fn law_admission(
    includes: Option<Seq<Seq<char>>>,
    excludes: Option<Seq<Seq<char>>>,
    defaults: Option<Seq<Seq<char>>>,
    watched: bool,
    path: Seq<char>,
)
    ensures
        ({
            let excluded = excludes is Some && exists|i: int|
                0 <= i < excludes->0.len() && #[trigger] glob_matches(excludes->0[i], path);
            let included = includes is None || exists|i: int|
                0 <= i < includes->0.len() && #[trigger] glob_matches(includes->0[i], path);
            let excluded_by_default = defaults is Some && exists|i: int|
                0 <= i < defaults->0.len() && #[trigger] glob_matches(defaults->0[i], path);
            &&& admitted(includes, excludes, defaults, watched, path) <==> !excluded && included
                && (watched || !excluded_by_default)
            &&& allowed(includes, excludes, defaults, path) <==> !excluded && included
                && !excluded_by_default
        }),
{
}

/// Patterns compile to the valid ones among them, in order, if there are any and they
/// can be compiled together.
pub proof fn law_valid_patterns_are_compiled(before: Seq<Seq<char>>, p: Seq<char>)
    ensures
        valid_patterns(Seq::empty()) == Seq::<Seq<char>>::empty(),
        glob_valid(p) ==> valid_patterns(before.push(p)) == valid_patterns(before).push(p),
        !glob_valid(p) ==> valid_patterns(before.push(p)) == valid_patterns(before),
        compiled(before) is Some ==> compiled(before)->0 == valid_patterns(before),
        compiled(before) is Some <==> valid_patterns(before).len() > 0 && globs_compile(
            valid_patterns(before),
        ),
{
    reveal(Seq::filter);
    assert(before.push(p).drop_last() =~= before);
}

/// What a path is matched by has slashes in place of backslashes and is the same otherwise:
/// it is what is left of the path below the root, or the whole path.
pub proof fn law_matched_text_has_slashes(path: Seq<char>, root: Seq<char>, i: int)
    ensures
        ({
            let text = match stripped(path, root) {
                Some(rest) => rest,
                None => path,
            };
            &&& relativized(path, root).len() == text.len()
            &&& 0 <= i < text.len() ==> relativized(path, root)[i] == if text[i] == '\\' {
                '/'
            } else {
                text[i]
            }
        }),
{
}

/// The patterns of a set are those that it was made of.
pub proof fn law_set_has_its_patterns(set: GlobSet)
    ensures
        patterns_of(Some(set)) == Some(set_patterns(set)),
        patterns_of(None) is None,
{
}

} // verus!
