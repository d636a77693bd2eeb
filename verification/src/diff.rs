//! Line-based diffs between two versions of a file.
//!
//! Finding the lines that changed is the work of `similar`; what is shown of
//! them, and when a diff is shown at all, is decided here.

use crate::lines::{
    all_ended, closed_off, ended, joined, law_lines_are_unique, lemma_ended_lines, lines_of,
    no_bare_return, one_line, whole_lines,
};
use crate::text::same_text;
use similar::{ChangeTag, TextDiff};
use vstd::prelude::*;
use vstd::string::*;
use vstd::utf8::{decode_utf8, decode_utf8_encode_utf8, valid_utf8};

verus! {

/// How many bytes of a file are looked at to tell whether it is binary.
pub const BINARY_CHECK_LEN: usize = 8192;

/// One line of a comparison of two texts, with its line break.
pub enum LineChange {
    /// The line is in both texts.
    Equal(String),
    /// The line is in the old text only.
    Delete(String),
    /// The line is in the new text only.
    Insert(String),
}

/// What a [`LineChange`] says.
pub enum ChangeModel {
    Equal(Seq<char>),
    Delete(Seq<char>),
    Insert(Seq<char>),
}

impl View for LineChange {
    type V = ChangeModel;

    open spec fn view(&self) -> ChangeModel {
        match *self {
            LineChange::Equal(s) => ChangeModel::Equal(s@),
            LineChange::Delete(s) => ChangeModel::Delete(s@),
            LineChange::Insert(s) => ChangeModel::Insert(s@),
        }
    }
}

/// What a list of changes says.
pub open spec fn change_models(changes: Seq<LineChange>) -> Seq<ChangeModel> {
    changes.map_values(|c: LineChange| c@)
}

impl ChangeModel {
    /// The text of the line.
    pub open spec fn line(self) -> Seq<char> {
        match self {
            ChangeModel::Equal(s) => s,
            ChangeModel::Delete(s) => s,
            ChangeModel::Insert(s) => s,
        }
    }

    /// The prefix under which the line is shown.
    pub open spec fn sign(self) -> Seq<char> {
        match self {
            ChangeModel::Equal(_) => "  "@,
            ChangeModel::Delete(_) => "- "@,
            ChangeModel::Insert(_) => "+ "@,
        }
    }

    /// The line as it is shown: its prefix, its text and a line feed.
    pub open spec fn shown(self) -> Seq<char> {
        self.sign() + ended(self.line())
    }
}

/// The lines of the old text in a list of changes.
pub open spec fn old_lines(changes: Seq<ChangeModel>) -> Seq<Seq<char>>
    decreases changes.len(),
{
    if changes.len() == 0 {
        Seq::empty()
    } else if changes[0] is Insert {
        old_lines(changes.skip(1))
    } else {
        seq![changes[0].line()] + old_lines(changes.skip(1))
    }
}

/// The lines of the new text in a list of changes.
pub open spec fn new_lines(changes: Seq<ChangeModel>) -> Seq<Seq<char>>
    decreases changes.len(),
{
    if changes.len() == 0 {
        Seq::empty()
    } else if changes[0] is Delete {
        new_lines(changes.skip(1))
    } else {
        seq![changes[0].line()] + new_lines(changes.skip(1))
    }
}

/// A list of changes as it is shown.
pub open spec fn rendered(changes: Seq<ChangeModel>) -> Seq<char>
    decreases changes.len(),
{
    if changes.len() == 0 {
        Seq::empty()
    } else {
        changes[0].shown() + rendered(changes.skip(1))
    }
}

/// The additions of some lines.
pub open spec fn additions(lines: Seq<Seq<char>>) -> Seq<ChangeModel> {
    lines.map_values(|l: Seq<char>| ChangeModel::Insert(l))
}

/// Whether every line of a comparison has some text.
pub open spec fn no_empty_line(changes: Seq<ChangeModel>) -> bool {
    forall|i: int| 0 <= i < changes.len() ==> (#[trigger] changes[i]).line().len() > 0
}

/// Whether every line of a comparison is a single one.
pub open spec fn single_lines(changes: Seq<ChangeModel>) -> bool {
    forall|i: int| 0 <= i < changes.len() ==> one_line((#[trigger] changes[i]).line())
}

/// Whether a list of changes leads from one text to another, line by line: it holds
/// the lines of both texts in order, and each line ends at its only line break.
pub open spec fn compares(changes: Seq<ChangeModel>, old: Seq<char>, new: Seq<char>) -> bool {
    &&& joined(old_lines(changes)) == old
    &&& joined(new_lines(changes)) == new
    &&& no_empty_line(changes)
    &&& single_lines(changes)
    &&& whole_lines(old_lines(changes))
    &&& whole_lines(new_lines(changes))
}

/// The lines that `similar` reports for a comparison of two texts.
pub uninterp spec fn line_changes(old: Seq<char>, new: Seq<char>) -> Seq<ChangeModel>;

/// Whether the start of the data holds a zero byte.
pub open spec fn looks_binary(data: Seq<u8>) -> bool {
    exists|i: int| 0 <= i < data.len() && i < BINARY_CHECK_LEN && data[i] == 0
}

/// Whether the data is not text: it looks binary or is not UTF-8.
pub open spec fn undecodable(data: Seq<u8>) -> bool {
    looks_binary(data) || !valid_utf8(data)
}

/// The text of the old version of a file, which may not be known.
pub open spec fn old_text(old: Option<Seq<u8>>) -> Seq<char> {
    match old {
        Some(bytes) => decode_utf8(bytes),
        None => Seq::empty(),
    }
}

/// Whether a change is treated as one of a binary file: one of the versions is not
/// text.
pub open spec fn binary_change(old: Option<Seq<u8>>, new: Seq<u8>) -> bool {
    undecodable(new) || (old is Some && undecodable(old->0))
}

/// The diff that is shown for a change.
pub open spec fn diff_text(old: Option<Seq<u8>>, new: Seq<u8>) -> Seq<char> {
    if binary_change(old, new) {
        "<binary file changed>"@
    } else if old_text(old) == decode_utf8(new) {
        Seq::empty()
    } else {
        rendered(line_changes(old_text(old), decode_utf8(new)))
    }
}

/// The bytes behind an optional slice.
pub open spec fn bytes_of(old: Option<&[u8]>) -> Option<Seq<u8>> {
    match old {
        Some(b) => Some(b@),
        None => None,
    }
}

/// `TextDiff::from_lines` and `iter_all_changes` of `similar`: compares two
/// texts line by line.
///
/// The comparison depends on the two texts alone, since no deadline is set.
/// It walks through both texts from start to end: the lines it reports as
/// equal or deleted make up the old text, and those it reports as equal or inserted
/// make up the new one.  No line is empty, none goes on after a line break (`\n`,
/// `\r\n`, or a `\r` that no `\n` follows), and each but the last of its text ends
/// in one.
#[verifier::external_body]
pub(crate) fn diff_lines(old: &str, new: &str) -> (changes: Vec<LineChange>)
    ensures
        change_models(changes@) == line_changes(old@, new@),
        compares(change_models(changes@), old@, new@),
{
    let diff = TextDiff::from_lines(old, new);
    diff.iter_all_changes()
        .map(|c| match c.tag() {
            ChangeTag::Equal => LineChange::Equal(c.value().to_string()),
            ChangeTag::Delete => LineChange::Delete(c.value().to_string()),
            ChangeTag::Insert => LineChange::Insert(c.value().to_string()),
        })
        .collect()
}

/// `std::str::from_utf8`: the text that some bytes encode, if they are UTF-8.
#[verifier::external_body]
fn utf8_text(bytes: &[u8]) -> (r: Option<&str>)
    ensures
        match r {
            Some(s) => valid_utf8(bytes@) && s@ == decode_utf8(bytes@),
            None => !valid_utf8(bytes@),
        },
{
    match std::str::from_utf8(bytes) {
        Ok(s) => Some(s),
        Err(_) => None,
    }
}

/// Detects whether `data` looks like a binary blob: a zero byte in its first
/// [`BINARY_CHECK_LEN`] bytes.
pub fn is_binary(data: &[u8]) -> (r: bool)
    ensures
        r == looks_binary(data@),
{
    let mut i: usize = 0;
    while i < data.len() && i < BINARY_CHECK_LEN
        invariant
            i <= data@.len(),
            forall|j: int| 0 <= j < i ==> data@[j] != 0,
        decreases data@.len() - i,
    {
        if data[i] == 0 {
            return true;
        }
        i = i + 1;
    }
    false
}

/// The text of some data, unless it is not text.
pub fn readable(data: &[u8]) -> (r: Option<&str>)
    ensures
        match r {
            Some(s) => !undecodable(data@) && s@ == decode_utf8(data@),
            None => undecodable(data@),
        },
{
    if is_binary(data) {
        None
    } else {
        utf8_text(data)
    }
}

/// Shows a list of changes: each line with its prefix, `- ` for a deleted line,
/// `+ ` for an inserted one and two spaces for one that stayed, and each ending
/// in a line break.
pub fn render_changes(changes: &Vec<LineChange>) -> (out: String)
    ensures
        out@ == rendered(change_models(changes@)),
{
    let mut out: String = String::new();
    let mut i: usize = 0;
    let ghost models = change_models(changes@);
    assert(models.skip(0) =~= models);
    assert(out@ + rendered(models) =~= rendered(models));
    while i < changes.len()
        invariant
            i <= changes@.len(),
            models == change_models(changes@),
            out@ + rendered(models.skip(i as int)) == rendered(models),
        decreases changes@.len() - i,
    {
        let ghost before = out@;
        let (sign, line): (&str, &String) = match &changes[i] {
            LineChange::Equal(s) => ("  ", s),
            LineChange::Delete(s) => ("- ", s),
            LineChange::Insert(s) => ("+ ", s),
        };
        out.append(sign);
        out.append(line.as_str());
        let n: usize = line.as_str().unicode_len();
        if n == 0 || line.as_str().get_char(n - 1) != '\n' {
            out.push('\n');
        }
        proof {
            let shown = changes@[i as int]@.shown();
            let rest = models.skip(i + 1);
            assert(models.skip(i as int).skip(1) =~= rest);
            assert(models.skip(i as int)[0] == changes@[i as int]@);
            assert(out@ =~= before + shown);
            assert(before + (shown + rendered(rest)) =~= out@ + rendered(rest));
        }
        i = i + 1;
    }
    assert(models.skip(changes@.len() as int) =~= Seq::<ChangeModel>::empty());
    assert(out@ + Seq::<char>::empty() =~= out@);
    out
}

/// Changes that start from nothing are the additions of the new lines.
proof fn lemma_additions(changes: Seq<ChangeModel>)
    requires
        joined(old_lines(changes)).len() == 0,
        no_empty_line(changes),
    ensures
        changes == additions(new_lines(changes)),
    decreases changes.len(),
{
    if changes.len() > 0 {
        let rest = changes.skip(1);
        let lines = new_lines(changes);
        assert forall|i: int| 0 <= i < rest.len() implies (#[trigger] rest[i]).line().len() > 0 by {
            assert(rest[i] == changes[i + 1]);
        }
        assert(changes[0].line().len() > 0);
        if !(changes[0] is Insert) {
            assert(old_lines(changes)[0] == changes[0].line());
        }
        lemma_additions(rest);
        assert(lines.skip(1) =~= new_lines(rest));
        assert forall|i: int| 0 <= i < changes.len() implies #[trigger] changes[i] == additions(
            lines,
        )[i] by {
            if i > 0 {
                assert(changes[i] == rest[i - 1]);
                assert(lines[i] == new_lines(rest)[i - 1]);
            }
        }
        assert(changes =~= additions(lines));
    } else {
        assert(changes =~= additions(new_lines(changes)));
    }
}

/// The lines of both texts in a comparison have what holds of all of its lines.
proof fn lemma_lines_of_sides(changes: Seq<ChangeModel>)
    requires
        no_empty_line(changes),
        single_lines(changes),
    ensures
        forall|i: int|
            0 <= i < old_lines(changes).len() ==> (#[trigger] old_lines(changes)[i]).len() > 0
                && one_line(old_lines(changes)[i]),
        forall|i: int|
            0 <= i < new_lines(changes).len() ==> (#[trigger] new_lines(changes)[i]).len() > 0
                && one_line(new_lines(changes)[i]),
    decreases changes.len(),
{
    if changes.len() > 0 {
        let rest = changes.skip(1);
        assert forall|i: int| 0 <= i < rest.len() implies (#[trigger] rest[i]).line().len() > 0
            && one_line(rest[i].line()) by {
            assert(rest[i] == changes[i + 1]);
        }
        lemma_lines_of_sides(rest);
        assert(changes[0].line().len() > 0 && one_line(changes[0].line()));
        assert forall|i: int| 0 <= i < old_lines(changes).len() implies (#[trigger] old_lines(
            changes,
        )[i]).len() > 0 && one_line(old_lines(changes)[i]) by {
            if changes[0] is Insert {
                assert(old_lines(changes)[i] == old_lines(rest)[i]);
            } else if i > 0 {
                assert(old_lines(changes)[i] == old_lines(rest)[i - 1]);
            } else {
                assert(old_lines(changes)[i] == changes[0].line());
            }
        }
        assert forall|i: int| 0 <= i < new_lines(changes).len() implies (#[trigger] new_lines(
            changes,
        )[i]).len() > 0 && one_line(new_lines(changes)[i]) by {
            if changes[0] is Delete {
                assert(new_lines(changes)[i] == new_lines(rest)[i]);
            } else if i > 0 {
                assert(new_lines(changes)[i] == new_lines(rest)[i - 1]);
            } else {
                assert(new_lines(changes)[i] == changes[0].line());
            }
        }
    }
}

/// A comparison shows the lines of both texts, no more and no fewer.
pub proof fn law_comparison_holds_all_lines(
    changes: Seq<ChangeModel>,
    old: Seq<char>,
    new: Seq<char>,
)
    requires
        compares(changes, old, new),
    ensures
        old_lines(changes) == lines_of(old),
        new_lines(changes) == lines_of(new),
{
    lemma_lines_of_sides(changes);
    law_lines_are_unique(old_lines(changes));
    law_lines_are_unique(new_lines(changes));
}

/// A first version is shown line by line: a comparison with the empty text adds the
/// lines of the new one.
pub proof fn law_first_version_is_shown_line_by_line(changes: Seq<ChangeModel>, new: Seq<char>)
    requires
        compares(changes, Seq::empty(), new),
    ensures
        changes == additions(lines_of(new)),
{
    law_comparison_holds_all_lines(changes, Seq::empty(), new);
    lemma_additions(changes);
}

/// The length of the first line of a shown diff, which ends after a line feed.
pub open spec fn shown_len(text: Seq<char>) -> int
    decreases text.len(),
{
    if text.len() == 0 {
        0
    } else if text[0] == '\n' {
        1
    } else {
        1 + shown_len(text.skip(1))
    }
}

/// The first line of a shown diff is a part of it, and is empty only in an empty one.
pub proof fn lemma_shown_len(text: Seq<char>)
    ensures
        0 <= shown_len(text) <= text.len(),
        text.len() > 0 ==> shown_len(text) > 0,
    decreases text.len(),
{
    if text.len() > 0 {
        lemma_shown_len(text.skip(1));
    }
}

/// What a shown diff says of one version: its lines without their prefixes, leaving out
/// those whose prefix starts with `hidden`.
pub open spec fn read_back(text: Seq<char>, hidden: char) -> Seq<char>
    decreases text.len(),
{
    if text.len() == 0 {
        Seq::empty()
    } else {
        proof {
            lemma_shown_len(text);
        }
        let n = shown_len(text);
        let rest = read_back(text.skip(n), hidden);
        if text[0] == hidden {
            rest
        } else {
            text.subrange(2, n) + rest
        }
    }
}

/// A text whose only line feed is at its end is the first line of what it stands
/// before.
proof fn lemma_shown_first(line: Seq<char>, rest: Seq<char>)
    requires
        line.len() > 0,
        line.last() == '\n',
        forall|j: int| 0 <= j < line.len() - 1 ==> (#[trigger] line[j]) != '\n',
    ensures
        shown_len(line + rest) == line.len(),
    decreases line.len(),
{
    let text = line + rest;
    assert(text[0] == line[0]);
    if line.len() > 1 {
        let tail = line.skip(1);
        assert(line[0] != '\n');
        assert forall|j: int| 0 <= j < tail.len() - 1 implies (#[trigger] tail[j]) != '\n' by {
            assert(tail[j] == line[j + 1]);
        }
        assert(text.skip(1) =~= tail + rest);
        lemma_shown_first(tail, rest);
    }
}

/// What reading back gives of the lines of both versions.
proof fn lemma_read_back(changes: Seq<ChangeModel>)
    requires
        single_lines(changes),
    ensures
        read_back(rendered(changes), '+') == joined(all_ended(old_lines(changes))),
        read_back(rendered(changes), '-') == joined(all_ended(new_lines(changes))),
    decreases changes.len(),
{
    reveal_strlit("  ");
    reveal_strlit("- ");
    reveal_strlit("+ ");
    if changes.len() > 0 {
        let change = changes[0];
        let rest = changes.skip(1);
        let shown = change.shown();
        let text = rendered(changes);
        assert forall|i: int| 0 <= i < rest.len() implies one_line((#[trigger] rest[i]).line()) by {
            assert(rest[i] == changes[i + 1]);
        }
        lemma_read_back(rest);
        assert(one_line(change.line()));
        assert forall|j: int| 0 <= j < shown.len() - 1 implies (#[trigger] shown[j]) != '\n' by {
            if j < 2 {
                assert(shown[j] == change.sign()[j]);
            } else {
                assert(shown[j] == change.line()[j - 2]);
            }
        }
        lemma_shown_first(shown, rendered(rest));
        let n = shown.len() as int;
        assert(text.skip(n) =~= rendered(rest));
        assert(text[0] == change.sign()[0]);
        assert(text.subrange(2, n) =~= ended(change.line()));
        let old = old_lines(changes);
        let new = new_lines(changes);
        if !(change is Insert) {
            assert(all_ended(old)[0] == ended(change.line()));
            assert(all_ended(old).skip(1) =~= all_ended(old_lines(rest)));
        }
        if !(change is Delete) {
            assert(all_ended(new)[0] == ended(change.line()));
            assert(all_ended(new).skip(1) =~= all_ended(new_lines(rest)));
        }
    } else {
        assert(all_ended(old_lines(changes)) =~= Seq::<Seq<char>>::empty());
        assert(all_ended(new_lines(changes)) =~= Seq::<Seq<char>>::empty());
    }
}

/// What a shown diff says line by line: each line is one change, of the kind that its
/// prefix tells.
pub open spec fn read_changes(text: Seq<char>) -> Seq<ChangeModel>
    decreases text.len(),
{
    if text.len() == 0 {
        Seq::empty()
    } else {
        proof {
            lemma_shown_len(text);
        }
        let n = shown_len(text);
        let line = text.subrange(2, n);
        let change = if text[0] == '+' {
            ChangeModel::Insert(line)
        } else if text[0] == '-' {
            ChangeModel::Delete(line)
        } else {
            ChangeModel::Equal(line)
        };
        seq![change] + read_changes(text.skip(n))
    }
}

/// Some changes, each line of them with a line feed at its end.
pub open spec fn ended_changes(changes: Seq<ChangeModel>) -> Seq<ChangeModel> {
    changes.map_values(
        |c: ChangeModel|
            match c {
                ChangeModel::Equal(s) => ChangeModel::Equal(ended(s)),
                ChangeModel::Delete(s) => ChangeModel::Delete(ended(s)),
                ChangeModel::Insert(s) => ChangeModel::Insert(ended(s)),
            },
    )
}

/// Each reported change is shown once, in order and under its own sign: a line that the
/// comparison reports as equal is shown as unchanged and not otherwise.
pub proof fn law_each_change_is_shown_under_its_sign(changes: Seq<ChangeModel>)
    requires
        single_lines(changes),
    ensures
        read_changes(rendered(changes)) == ended_changes(changes),
    decreases changes.len(),
{
    reveal_strlit("  ");
    reveal_strlit("- ");
    reveal_strlit("+ ");
    if changes.len() > 0 {
        let change = changes[0];
        let rest = changes.skip(1);
        let shown = change.shown();
        let text = rendered(changes);
        assert forall|i: int| 0 <= i < rest.len() implies one_line((#[trigger] rest[i]).line()) by {
            assert(rest[i] == changes[i + 1]);
        }
        law_each_change_is_shown_under_its_sign(rest);
        assert(one_line(change.line()));
        assert forall|j: int| 0 <= j < shown.len() - 1 implies (#[trigger] shown[j]) != '\n' by {
            if j < 2 {
                assert(shown[j] == change.sign()[j]);
            } else {
                assert(shown[j] == change.line()[j - 2]);
            }
        }
        lemma_shown_first(shown, rendered(rest));
        let n = shown.len() as int;
        assert(text.skip(n) =~= rendered(rest));
        assert(text[0] == change.sign()[0]);
        assert(text.subrange(2, n) =~= ended(change.line()));
        assert(ended_changes(changes) =~= seq![ended_changes(changes)[0]] + ended_changes(rest));
    } else {
        assert(ended_changes(changes) =~= Seq::<ChangeModel>::empty());
    }
}

/// A shown diff reads back to both versions, up to a line feed that is shown at the end
/// of a version that has none.  Carriage returns have to stand before line feeds, since a
/// line feed is shown after any other.
pub proof fn law_diff_reads_back(changes: Seq<ChangeModel>, old: Seq<char>, new: Seq<char>)
    requires
        compares(changes, old, new),
    ensures
        no_bare_return(old) ==> read_back(rendered(changes), '+') == closed_off(old),
        no_bare_return(new) ==> read_back(rendered(changes), '-') == closed_off(new),
{
    lemma_read_back(changes);
    lemma_lines_of_sides(changes);
    if no_bare_return(old) {
        lemma_ended_lines(old_lines(changes));
    }
    if no_bare_return(new) {
        lemma_ended_lines(new_lines(changes));
    }
}

/// Computes the diff between two versions of a file.
///
/// Returns the text of the diff and whether the change is one of a binary file.
///
/// * A binary file, which is one that is not text, gives the placeholder
///   `<binary file changed>`.
/// * Versions with the same content give an empty diff, and no others do.
/// * Otherwise each line is shown, `- ` before a line of the old version only,
///   `+ ` before one of the new version only, two spaces before the others.
///   The lines shown are those of both versions, which can be read back from them.
/// * Where there is no old version, every line is shown as an addition.
pub fn compute_diff(old: Option<&[u8]>, new: &[u8]) -> (r: (String, bool))
    ensures
        r.0@ == diff_text(bytes_of(old), new@),
        r.1 == binary_change(bytes_of(old), new@),
        !r.1 ==> (r.0@.len() == 0 <==> old_text(bytes_of(old)) == decode_utf8(new@)),
        !r.1 && old is Some ==> (r.0@.len() == 0 <==> old->0@ == new@),
        !r.1 && old is None ==> r.0@ == rendered(additions(lines_of(decode_utf8(new@)))),
        !r.1 && old_text(bytes_of(old)) != decode_utf8(new@) ==> {
            let before = old_text(bytes_of(old));
            let after = decode_utf8(new@);
            &&& compares(line_changes(before, after), before, after)
            &&& read_changes(r.0@) == ended_changes(line_changes(before, after))
            &&& no_bare_return(before) ==> read_back(r.0@, '+') == closed_off(before)
            &&& no_bare_return(after) ==> read_back(r.0@, '-') == closed_off(after)
        },
{
    let after: &str = match readable(new) {
        Some(text) => text,
        None => {
            return ("<binary file changed>".to_owned(), true);
        },
    };
    let before: &str = match old {
        Some(b) => match readable(b) {
            Some(text) => text,
            None => {
                return ("<binary file changed>".to_owned(), true);
            },
        },
        None => "",
    };
    proof {
        reveal_strlit("");
        decode_utf8_encode_utf8(new@);
        if old is Some {
            decode_utf8_encode_utf8(old->0@);
        }
        assert(old is None ==> before@ =~= Seq::<char>::empty());
    }
    if same_text(before, after) {
        assert(old is None ==> additions(lines_of(after@)) =~= Seq::<ChangeModel>::empty());
        return (String::new(), false);
    }
    let changes = diff_lines(before, after);
    proof {
        let models = change_models(changes@);
        law_diff_reads_back(models, before@, after@);
        law_each_change_is_shown_under_its_sign(models);
        if old is None {
            law_first_version_is_shown_line_by_line(models, after@);
        }
        if models.len() == 0 {
            assert(old_lines(models) =~= new_lines(models));
        } else {
            assert(models[0].shown().len() > 0);
        }
    }
    (render_changes(&changes), false)
}

/// A version that says the same as the one before gives an empty diff, unless
/// it is binary.
pub proof fn law_same_text_has_empty_diff(content: Seq<u8>)
    requires
        !undecodable(content),
    ensures
        diff_text(Some(content), content) == Seq::<char>::empty(),
{
}

/// Every shown line starts with its prefix and ends in a line feed.
pub proof fn law_shown_line(change: ChangeModel)
    ensures
        change.shown().take(2) == change.sign(),
        change.shown().last() == '\n',
{
    reveal_strlit("  ");
    reveal_strlit("- ");
    reveal_strlit("+ ");
    assert(change.shown().take(2) =~= change.sign());
}

/// Whether a line of a text starts at the position `i`.
pub open spec fn line_starts_at(text: Seq<char>, i: int) -> bool {
    0 <= i < text.len() && (i == 0 || text[i - 1] == '\n')
}

/// Whether one of the three prefixes stands at the position `i`.
pub open spec fn prefix_at(text: Seq<char>, i: int) -> bool {
    i + 2 <= text.len() && (text.subrange(i, i + 2) == "  "@ || text.subrange(i, i + 2) == "- "@
        || text.subrange(i, i + 2) == "+ "@)
}

/// Every line of a shown diff starts with a prefix, and the last one ends in a line
/// break.
pub proof fn law_every_line_has_its_prefix(changes: Seq<ChangeModel>)
    requires
        single_lines(changes),
    ensures
        forall|i: int| #[trigger]
            line_starts_at(rendered(changes), i) ==> prefix_at(rendered(changes), i),
        rendered(changes).len() > 0 ==> rendered(changes).last() == '\n',
    decreases changes.len(),
{
    reveal_strlit("  ");
    reveal_strlit("- ");
    reveal_strlit("+ ");
    if changes.len() > 0 {
        let rest = changes.skip(1);
        assert forall|i: int| 0 <= i < rest.len() implies one_line((#[trigger] rest[i]).line()) by {
            assert(rest[i] == changes[i + 1]);
        }
        law_every_line_has_its_prefix(rest);
        let after = rendered(rest);
        let change = changes[0];
        let shown = change.shown();
        let text = rendered(changes);
        let n = shown.len() as int;
        assert(text == shown + after);
        assert(one_line(change.line()));
        law_shown_line(change);
        assert(after.len() > 0 ==> text.last() == after.last());
        assert(after.len() == 0 ==> text =~= shown);
        assert forall|i: int| #[trigger] line_starts_at(text, i) implies prefix_at(text, i) by {
            if i == 0 {
                assert(text.subrange(0, 2) =~= shown.take(2));
            } else if i < n {
                assert(text[i - 1] == shown[i - 1]);
                if i >= 3 {
                    assert(shown[i - 1] == change.line()[i - 3]);
                } else {
                    assert(shown[i - 1] == change.sign()[i - 1]);
                }
            } else {
                let k = i - n;
                if k > 0 {
                    assert(text[i - 1] == after[k - 1]);
                }
                assert(line_starts_at(after, k));
                assert(text.subrange(i, i + 2) =~= after.subrange(k, k + 2));
            }
        }
    }
}

/// Data looks binary exactly if a zero byte stands among its first 8192 bytes, and is
/// not text exactly if it looks binary or is not UTF-8.
pub proof fn law_zero_byte_looks_binary(data: Seq<u8>)
    ensures
        looks_binary(data) <==> data.take(
            if data.len() < 8192 {
                data.len() as int
            } else {
                8192
            },
        ).contains(0u8),
        undecodable(data) <==> looks_binary(data) || !valid_utf8(data),
{
    let n: int = if data.len() < 8192 {
        data.len() as int
    } else {
        8192
    };
    let head = data.take(n);
    if looks_binary(data) {
        let i = choose|i: int| 0 <= i < data.len() && i < BINARY_CHECK_LEN && data[i] == 0;
        assert(head[i] == 0);
    }
    if head.contains(0u8) {
        let i = choose|i: int| 0 <= i < head.len() && head[i] == 0;
        assert(data[i] == 0);
    }
}

/// A change is one of a binary file exactly if one of its versions is not text, and then
/// the placeholder is all that is shown.  A change of text is shown by what the
/// comparison of the two texts reports, each change under its own sign.
pub proof fn law_shown_diff(old: Option<Seq<u8>>, new: Seq<u8>)
    ensures
        binary_change(old, new) <==> undecodable(new) || (old is Some && undecodable(old->0)),
        binary_change(old, new) ==> diff_text(old, new) == "<binary file changed>"@,
        !binary_change(old, new) ==> {
            let before = match old {
                Some(bytes) => decode_utf8(bytes),
                None => Seq::empty(),
            };
            let after = decode_utf8(new);
            let changes = line_changes(before, after);
            &&& before == after ==> diff_text(old, new).len() == 0
            &&& before != after && single_lines(changes) ==> read_changes(diff_text(old, new))
                == ended_changes(changes)
        },
{
    let before = match old {
        Some(bytes) => decode_utf8(bytes),
        None => Seq::empty(),
    };
    let changes = line_changes(before, decode_utf8(new));
    if single_lines(changes) {
        law_each_change_is_shown_under_its_sign(changes);
    }
}

/// What a comparison is made of: a line counts for the old text unless it is an addition,
/// and for the new text unless it is a deletion, in order.
pub proof fn law_sides_of_a_comparison(rest: Seq<ChangeModel>, line: Seq<char>)
    ensures
        old_lines(seq![ChangeModel::Equal(line)] + rest) == seq![line] + old_lines(rest),
        old_lines(seq![ChangeModel::Delete(line)] + rest) == seq![line] + old_lines(rest),
        old_lines(seq![ChangeModel::Insert(line)] + rest) == old_lines(rest),
        new_lines(seq![ChangeModel::Equal(line)] + rest) == seq![line] + new_lines(rest),
        new_lines(seq![ChangeModel::Delete(line)] + rest) == new_lines(rest),
        new_lines(seq![ChangeModel::Insert(line)] + rest) == seq![line] + new_lines(rest),
        old_lines(Seq::empty()) == Seq::<Seq<char>>::empty(),
        new_lines(Seq::empty()) == Seq::<Seq<char>>::empty(),
{
    assert((seq![ChangeModel::Equal(line)] + rest).skip(1) =~= rest);
    assert((seq![ChangeModel::Delete(line)] + rest).skip(1) =~= rest);
    assert((seq![ChangeModel::Insert(line)] + rest).skip(1) =~= rest);
}

/// A reported line says its kind and its text, and a list of them says that of each, in
/// order.
pub proof fn law_reported_lines(changes: Seq<LineChange>, i: int, s: String)
    ensures
        change_models(changes).len() == changes.len(),
        0 <= i < changes.len() ==> change_models(changes)[i] == changes[i]@,
        LineChange::Equal(s)@ == ChangeModel::Equal(s@),
        LineChange::Delete(s)@ == ChangeModel::Delete(s@),
        LineChange::Insert(s)@ == ChangeModel::Insert(s@),
{
}

} // verus!
