//! Glob patterns, compiled and matched by `globset`.
//!
//! The contracts speak of a compiled set through the patterns that it was made
//! of, and of matching through one name for what a pattern matches.  What a
//! backslash means in a pattern or a path is up to the platform that the crate is
//! built for, as in `globset`: the names speak of that platform.

use globset::{Glob, GlobSet, GlobSetBuilder};
use vstd::prelude::*;
use vstd::string::*;

verus! {

/// A parsed glob pattern of `globset`.
#[verifier::external_type_specification]
#[verifier::external_body]
pub struct ExGlob(globset::Glob);

/// A compiled set of glob patterns of `globset`.
#[verifier::external_type_specification]
#[verifier::external_body]
pub struct ExGlobSet(globset::GlobSet);

/// A set of glob patterns of `globset` that is being put together.
#[verifier::external_type_specification]
#[verifier::external_body]
pub struct ExGlobSetBuilder(globset::GlobSetBuilder);

/// The error that `globset` reports for a pattern it cannot parse or compile.
#[verifier::external_type_specification]
#[verifier::external_body]
pub struct ExGlobError(globset::Error);

/// Whether `globset` accepts a text as a pattern.
pub uninterp spec fn glob_valid(pattern: Seq<char>) -> bool;

/// Whether a valid pattern matches a path.
pub uninterp spec fn glob_matches(pattern: Seq<char>, path: Seq<char>) -> bool;

/// Whether `globset` can compile the given valid patterns into one set.
pub uninterp spec fn globs_compile(patterns: Seq<Seq<char>>) -> bool;

/// The text that a pattern was parsed from.
pub uninterp spec fn glob_text(glob: globset::Glob) -> Seq<char>;

/// The patterns in a set that is being put together, in order.
pub uninterp spec fn builder_patterns(builder: globset::GlobSetBuilder) -> Seq<Seq<char>>;

/// The patterns that a compiled set was made of, in order.
pub uninterp spec fn set_patterns(set: globset::GlobSet) -> Seq<Seq<char>>;

/// Whether any of the patterns matches the path.
pub open spec fn any_matches(patterns: Seq<Seq<char>>, path: Seq<char>) -> bool {
    exists|i: int| 0 <= i < patterns.len() && #[trigger] glob_matches(patterns[i], path)
}

/// The texts of some strings.
pub open spec fn texts(v: Seq<String>) -> Seq<Seq<char>> {
    v.map_values(|s: String| s@)
}

/// The patterns among the given texts that are valid, in order.
pub open spec fn valid_patterns(patterns: Seq<Seq<char>>) -> Seq<Seq<char>> {
    patterns.filter(|p: Seq<char>| glob_valid(p))
}

/// `Glob::new`: parses a pattern.
#[verifier::external_body]
fn parse_glob(pattern: &str) -> (r: Result<Glob, globset::Error>)
    ensures
        match r {
            Ok(glob) => glob_valid(pattern@) && glob_text(glob) == pattern@,
            Err(_) => !glob_valid(pattern@),
        },
{
    Glob::new(pattern)
}

/// `GlobSetBuilder::new`: starts a set without patterns.
#[verifier::external_body]
fn new_builder() -> (b: GlobSetBuilder)
    ensures
        builder_patterns(b) == Seq::<Seq<char>>::empty(),
{
    GlobSetBuilder::new()
}

/// `GlobSetBuilder::add`: adds a pattern at the end.
#[verifier::external_body]
fn add_glob(builder: &mut GlobSetBuilder, glob: Glob)
    ensures
        builder_patterns(*final(builder)) == builder_patterns(*old(builder)).push(glob_text(glob)),
{
    builder.add(glob);
}

/// `GlobSetBuilder::build`: compiles the patterns added so far.  Whether that
/// succeeds depends on the patterns alone, and it does where there are none.
#[verifier::external_body]
pub(crate) fn build_set(builder: &GlobSetBuilder) -> (r: Result<GlobSet, globset::Error>)
    ensures
        match r {
            Ok(set) => globs_compile(builder_patterns(*builder)) && set_patterns(set)
                == builder_patterns(*builder),
            Err(_) => !globs_compile(builder_patterns(*builder)),
        },
        builder_patterns(*builder).len() == 0 ==> r is Ok,
{
    builder.build()
}

/// `GlobSet::is_match`: whether any pattern of the set matches the path.
#[verifier::external_body]
pub(crate) fn set_matches(set: &GlobSet, path: &str) -> (r: bool)
    ensures
        r == (exists|i: int|
            0 <= i < set_patterns(*set).len() && #[trigger] glob_matches(
                set_patterns(*set)[i],
                path@,
            )),
{
    set.is_match(std::path::Path::new(path))
}

/// The valid ones among the first patterns grow by one at a time.
proof fn lemma_valid_step(patterns: Seq<Seq<char>>, i: int)
    requires
        0 <= i < patterns.len(),
    ensures
        valid_patterns(patterns.take(i + 1)) == if glob_valid(patterns[i]) {
            valid_patterns(patterns.take(i)).push(patterns[i])
        } else {
            valid_patterns(patterns.take(i))
        },
{
    let next = patterns.take(i + 1);
    assert(next.drop_last() =~= patterns.take(i));
    assert(next.last() == patterns[i]);
    reveal(Seq::filter);
}

/// Puts the valid ones among the patterns into a set that can be compiled, and
/// counts them.  Invalid ones are skipped.
pub(crate) fn gather(patterns: &[String]) -> (r: (GlobSetBuilder, usize))
    ensures
        builder_patterns(r.0) == valid_patterns(texts(patterns@)),
        r.1 == valid_patterns(texts(patterns@)).len(),
{
    let mut builder = new_builder();
    let ghost all = texts(patterns@);
    let mut count: usize = 0;
    let mut i: usize = 0;
    proof {
        reveal(Seq::filter);
        assert(all.take(0) =~= Seq::<Seq<char>>::empty());
        assert(valid_patterns(all.take(0)) =~= Seq::<Seq<char>>::empty());
    }
    while i < patterns.len()
        invariant
            i <= patterns@.len(),
            all == texts(patterns@),
            builder_patterns(builder) == valid_patterns(all.take(i as int)),
            count == builder_patterns(builder).len(),
            count <= i,
        decreases patterns@.len() - i,
    {
        proof {
            lemma_valid_step(all, i as int);
            assert(all[i as int] == patterns@[i as int]@);
        }
        match parse_glob(patterns[i].as_str()) {
            Ok(glob) => {
                add_glob(&mut builder, glob);
                count = count + 1;
            },
            Err(_) => {},
        }
        i = i + 1;
    }
    assert(all.take(all.len() as int) =~= all);
    (builder, count)
}

/// A pattern among some matches a path exactly if any does.
pub proof fn law_any_pattern_may_match(patterns: Seq<Seq<char>>, path: Seq<char>)
    ensures
        any_matches(patterns, path) <==> exists|i: int|
            0 <= i < patterns.len() && #[trigger] glob_matches(patterns[i], path),
{
}

/// The texts of some strings are theirs, in order.
pub proof fn law_texts_are_those_of_the_strings(v: Seq<String>, i: int)
    ensures
        texts(v).len() == v.len(),
        0 <= i < v.len() ==> texts(v)[i] == v[i]@,
{
}

} // verus!
