//! The lines of a text.
//!
//! A line ends after a line break, which belongs to it: `\n`, `\r\n`, or a `\r` that
//! no `\n` follows.  The last line may end without one.

use vstd::prelude::*;

verus! {

/// Whether line breaks stand nowhere in a text but at its end.
pub open spec fn one_line(text: Seq<char>) -> bool {
    forall|j: int|
        0 <= j < text.len() - 1 ==> (#[trigger] text[j]) != '\n' && (text[j] == '\r' ==> j
            == text.len() - 2 && text.last() == '\n')
}

/// Whether a line ends in a line break, given what stands after it.
pub open spec fn ends_before(line: Seq<char>, next: Seq<char>) -> bool {
    line.len() > 0 && (line.last() == '\n' || line.last() == '\r' && !(next.len() > 0 && next[0]
        == '\n'))
}

/// Whether every line but the last ends in a line break.
pub open spec fn whole_lines(lines: Seq<Seq<char>>) -> bool
    decreases lines.len(),
{
    lines.len() <= 1 || (ends_before(lines[0], lines[1]) && whole_lines(lines.skip(1)))
}

/// The text that some lines make up.
pub open spec fn joined(lines: Seq<Seq<char>>) -> Seq<char>
    decreases lines.len(),
{
    if lines.len() == 0 {
        Seq::empty()
    } else {
        lines[0] + joined(lines.skip(1))
    }
}

/// The length of the first line of a text.
pub open spec fn first_line_len(text: Seq<char>) -> int
    decreases text.len(),
{
    if text.len() == 0 {
        0
    } else if ends_before(seq![text[0]], text.skip(1)) {
        1
    } else {
        1 + first_line_len(text.skip(1))
    }
}

/// The first line of a text is a part of it, and is empty only in an empty text.
pub proof fn lemma_first_line_len(text: Seq<char>)
    ensures
        0 <= first_line_len(text) <= text.len(),
        text.len() > 0 ==> first_line_len(text) > 0,
    decreases text.len(),
{
    if text.len() > 0 {
        lemma_first_line_len(text.skip(1));
    }
}

/// The lines of a text, each with its line break.
pub open spec fn lines_of(text: Seq<char>) -> Seq<Seq<char>>
    decreases text.len(),
{
    if text.len() == 0 {
        Seq::empty()
    } else {
        proof {
            lemma_first_line_len(text);
        }
        let n = first_line_len(text);
        seq![text.take(n)] + lines_of(text.skip(n))
    }
}

/// A line in front of a text is its first line if it ends in a line break there, or if
/// nothing follows.
proof fn lemma_first_line(line: Seq<char>, rest: Seq<char>)
    requires
        line.len() > 0,
        one_line(line),
        rest.len() == 0 || ends_before(line, rest),
    ensures
        first_line_len(line + rest) == line.len(),
    decreases line.len(),
{
    let text = line + rest;
    let tail = line.skip(1);
    assert(text.skip(1) =~= tail + rest);
    assert(text[0] == line[0]);
    if line.len() == 1 {
        assert(tail + rest =~= rest);
        assert(seq![text[0]].last() == line.last());
        if rest.len() == 0 {
            assert(first_line_len(rest) == 0);
        }
    } else {
        assert(line[0] != '\n');
        assert(tail.last() == line.last());
        assert(one_line(tail)) by {
            assert forall|j: int| 0 <= j < tail.len() - 1 implies (#[trigger] tail[j]) != '\n' && (
            tail[j] == '\r' ==> j == tail.len() - 2 && tail.last() == '\n') by {
                assert(tail[j] == line[j + 1]);
            }
        }
        assert(!ends_before(seq![text[0]], text.skip(1))) by {
            if text[0] == '\r' {
                assert(line.len() == 2 && line.last() == '\n');
                assert(text.skip(1)[0] == '\n');
            }
        }
        lemma_first_line(tail, rest);
    }
}

/// The lines of a text are the only ones that make it up: lines with some text, each
/// ending at its only line break, are those of the text that they make up.
pub proof fn law_lines_are_unique(lines: Seq<Seq<char>>)
    requires
        forall|i: int|
            0 <= i < lines.len() ==> (#[trigger] lines[i]).len() > 0 && one_line(lines[i]),
        whole_lines(lines),
    ensures
        lines_of(joined(lines)) == lines,
    decreases lines.len(),
{
    if lines.len() > 0 {
        let rest = lines.skip(1);
        let text = joined(lines);
        assert forall|i: int| 0 <= i < rest.len() implies (#[trigger] rest[i]).len() > 0
            && one_line(rest[i]) by {
            assert(rest[i] == lines[i + 1]);
        }
        law_lines_are_unique(rest);
        assert(lines[0].len() > 0);
        if lines.len() > 1 {
            assert(joined(rest) == rest[0] + joined(rest.skip(1)));
            assert(rest[0] == lines[1] && lines[1].len() > 0);
            assert(joined(rest)[0] == lines[1][0]);
        }
        lemma_first_line(lines[0], joined(rest));
        assert(text.take(lines[0].len() as int) =~= lines[0]);
        assert(text.skip(lines[0].len() as int) =~= joined(rest));
        assert(seq![lines[0]] + rest =~= lines);
    }
}

/// A line with a line feed at its end, which it gets if it has none.
pub open spec fn ended(line: Seq<char>) -> Seq<char> {
    if line.len() > 0 && line.last() == '\n' {
        line
    } else {
        line.push('\n')
    }
}

/// Some lines, each with a line feed at its end.
pub open spec fn all_ended(lines: Seq<Seq<char>>) -> Seq<Seq<char>> {
    lines.map_values(|l: Seq<char>| ended(l))
}

/// A text with a line feed at its end, unless it is empty.
pub open spec fn closed_off(text: Seq<char>) -> Seq<char> {
    if text.len() == 0 {
        text
    } else {
        ended(text)
    }
}

/// Whether a line feed stands right after the position `i`.
pub open spec fn feed_after(text: Seq<char>, i: int) -> bool {
    i + 1 < text.len() && text[i + 1] == '\n'
}

/// Whether every carriage return in a text stands before a line feed.
pub open spec fn no_bare_return(text: Seq<char>) -> bool {
    forall|i: int| 0 <= i < text.len() && (#[trigger] text[i]) == '\r' ==> feed_after(text, i)
}

/// Ending every line in a line feed changes nothing but the end of the text, if every
/// carriage return stands before a line feed.
pub proof fn lemma_ended_lines(lines: Seq<Seq<char>>)
    requires
        forall|i: int| 0 <= i < lines.len() ==> (#[trigger] lines[i]).len() > 0,
        whole_lines(lines),
        no_bare_return(joined(lines)),
    ensures
        joined(all_ended(lines)) == closed_off(joined(lines)),
    decreases lines.len(),
{
    if lines.len() > 0 {
        let first = lines[0];
        let rest = lines.skip(1);
        let text = joined(lines);
        let after = joined(rest);
        assert(first.len() > 0);
        assert(all_ended(lines)[0] == ended(first));
        assert(all_ended(lines).skip(1) =~= all_ended(rest));
        assert forall|i: int| 0 <= i < rest.len() implies (#[trigger] rest[i]).len() > 0 by {
            assert(rest[i] == lines[i + 1]);
        }
        let n = first.len() as int;
        assert(text.skip(n) =~= after);
        assert(no_bare_return(after)) by {
            assert forall|i: int|
                0 <= i < after.len() && (#[trigger] after[i]) == '\r' implies feed_after(
                after,
                i,
            ) by {
                assert(text[n + i] == '\r');
                assert(feed_after(text, n + i));
            }
        }
        lemma_ended_lines(rest);
        if lines.len() > 1 {
            assert(after == rest[0] + joined(rest.skip(1)));
            assert(rest[0] == lines[1] && lines[1].len() > 0);
            assert(after[0] == lines[1][0]);
            assert(first.last() == '\n') by {
                if first.last() == '\r' {
                    assert(text[n - 1] == '\r');
                    assert(feed_after(text, n - 1));
                }
            }
            assert(text.last() == after.last());
            assert(closed_off(text) =~= first + closed_off(after));
        } else {
            assert(after =~= Seq::<char>::empty());
            assert(text =~= first);
            assert(joined(all_ended(rest)) =~= Seq::<char>::empty());
            assert(joined(all_ended(lines)) =~= ended(first));
        }
    }
}

/// The lines of a text make it up, and none is empty.
pub proof fn law_lines_make_up_the_text(text: Seq<char>)
    ensures
        joined(lines_of(text)) == text,
        forall|i: int|
            0 <= i < lines_of(text).len() ==> (#[trigger] lines_of(text)[i]).len() > 0,
    decreases text.len(),
{
    if text.len() > 0 {
        lemma_first_line_len(text);
        let n = first_line_len(text);
        let lines = lines_of(text);
        let rest = text.skip(n);
        law_lines_make_up_the_text(rest);
        assert(lines.skip(1) =~= lines_of(rest));
        assert(lines[0] == text.take(n));
        assert(text.take(n) + rest =~= text);
        assert forall|i: int| 0 <= i < lines.len() implies (#[trigger] lines[i]).len() > 0 by {
            if i > 0 {
                assert(lines[i] == lines_of(rest)[i - 1]);
            }
        }
    }
}

} // verus!
