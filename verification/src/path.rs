//! Paths as text: their components, and what is read off them.
//!
//! A path is a sequence of segments separated by `/`; where the platform separates
//! them by `\`, a path is turned to `/` first (see
//! [`normalize_path`](crate::filter::normalize_path)).  Empty segments and `.`
//! segments do not count as components, except for a leading `/` (the root) and
//! a leading `.` (the current directory).

use crate::text::{chars_of, string_from};
use vstd::prelude::*;
use vstd::string::*;

verus! {

/// Whether a segment after the first counts as a component.
pub open spec fn is_component(segment: Seq<char>) -> bool {
    segment.len() > 0 && segment != seq!['.']
}

/// The component that the segment `s[from..to]` is, if it is one.
pub open spec fn span_if_component(s: Seq<char>, from: int, to: int) -> Seq<(int, int)> {
    if is_component(s.subrange(from, to)) {
        seq![(from, to)]
    } else {
        Seq::empty()
    }
}

/// Where the components of `s` lie, from the segment that starts at `from` on,
/// its characters before `at` being known to hold no separator.
pub open spec fn spans_from(s: Seq<char>, from: int, at: int) -> Seq<(int, int)>
    decreases s.len() - at,
{
    if at >= s.len() {
        span_if_component(s, from, s.len() as int)
    } else if s[at] == '/' {
        span_if_component(s, from, at) + spans_from(s, at + 1, at + 1)
    } else {
        spans_from(s, from, at + 1)
    }
}

/// Whether a path starts at the root.
pub open spec fn is_absolute(s: Seq<char>) -> bool {
    s.len() > 0 && s[0] == '/'
}

/// Whether a path starts with the segment `.`.
pub open spec fn starts_with_dot(s: Seq<char>) -> bool {
    s.len() > 0 && s[0] == '.' && (s.len() == 1 || s[1] == '/')
}

/// Where the components of a path lie in its text.
pub open spec fn spans(s: Seq<char>) -> Seq<(int, int)> {
    if is_absolute(s) || starts_with_dot(s) {
        seq![(0int, 1int)] + spans_from(s, 1, 1)
    } else {
        spans_from(s, 0, 0)
    }
}

/// The components of a path.
pub open spec fn components(s: Seq<char>) -> Seq<Seq<char>> {
    spans(s).map_values(|p: (int, int)| s.subrange(p.0, p.1))
}

/// Whether two texts name the same path.
pub open spec fn same_components(a: Seq<char>, b: Seq<char>) -> bool {
    components(a) == components(b)
}

/// What is left of `path` after the components of `base`, if it starts with
/// them: the text from the next component to the end of the last one.
pub open spec fn stripped(path: Seq<char>, base: Seq<char>) -> Option<Seq<char>> {
    let n = components(base).len();
    if n <= components(path).len() && components(path).take(n as int) == components(base) {
        if n == components(path).len() {
            Some(Seq::empty())
        } else {
            Some(path.subrange(spans(path)[n as int].0, spans(path).last().1))
        }
    } else {
        None
    }
}

/// The name of the file that a path leads to: its last component, unless that
/// is the root, the current or the parent directory.
pub open spec fn file_name(path: Seq<char>) -> Option<Seq<char>> {
    let parts = components(path);
    if parts.len() > 0 && parts.last() != seq!['/'] && parts.last() != seq!['.'] && parts.last()
        != seq!['.', '.'] {
        Some(parts.last())
    } else {
        None
    }
}

/// The position of the last `.` in a text, `-1` where there is none.
pub open spec fn last_dot(s: Seq<char>) -> int
    decreases s.len(),
{
    if s.len() == 0 {
        -1
    } else if s.last() == '.' {
        s.len() - 1
    } else {
        last_dot(s.drop_last())
    }
}

/// The extension of a path: what follows the last `.` of its file name, unless
/// that is the name's first character.  Empty where there is none.
pub open spec fn extension(path: Seq<char>) -> Seq<char> {
    match file_name(path) {
        Some(name) => if last_dot(name) > 0 {
            name.skip(last_dot(name) + 1)
        } else {
            Seq::empty()
        },
        None => Seq::empty(),
    }
}

/// The positions in `r` are those of `spans`.
pub open spec fn same_spans(r: Seq<(usize, usize)>, spans: Seq<(int, int)>) -> bool {
    &&& r.len() == spans.len()
    &&& forall|i: int|
        0 <= i < r.len() ==> (#[trigger] r[i]).0 == spans[i].0 && r[i].1 == spans[i].1
}

/// Every component lies inside the text, is not empty, and apart from a leading
/// root holds no separator; it is not `.` apart from a leading one.
proof fn lemma_spans_from(s: Seq<char>, from: int, at: int)
    requires
        0 <= from <= at,
        from <= s.len(),
        at <= s.len(),
        forall|j: int| from <= j < at ==> s[j] != '/',
    ensures
        forall|i: int|
            0 <= i < spans_from(s, from, at).len() ==> {
                let p = #[trigger] spans_from(s, from, at)[i];
                &&& from <= p.0 < p.1 <= s.len()
                &&& at <= p.1
                &&& is_component(s.subrange(p.0, p.1))
                &&& forall|j: int| p.0 <= j < p.1 ==> s[j] != '/'
            },
        forall|i: int, j: int|
            0 <= i < j < spans_from(s, from, at).len() ==> (#[trigger] spans_from(s, from, at)[i]).1
                < (#[trigger] spans_from(s, from, at)[j]).0,
    decreases s.len() - at,
{
    let all = spans_from(s, from, at);
    if at >= s.len() {
        assert(all == span_if_component(s, from, s.len() as int));
        assert(at == s.len());
        assert forall|i: int| 0 <= i < all.len() implies ({
            let p = #[trigger] all[i];
            &&& from <= p.0 < p.1 <= s.len()
            &&& at <= p.1
            &&& is_component(s.subrange(p.0, p.1))
            &&& forall|j: int| p.0 <= j < p.1 ==> s[j] != '/'
        }) by {
            assert(all[i] == (from, s.len() as int));
        }
    } else if s[at] == '/' {
        lemma_spans_from(s, at + 1, at + 1);
        let head = span_if_component(s, from, at);
        let rest = spans_from(s, at + 1, at + 1);
        assert(all == head + rest);
        assert forall|i: int| 0 <= i < all.len() implies ({
            let p = #[trigger] all[i];
            &&& from <= p.0 < p.1 <= s.len()
            &&& at <= p.1
            &&& is_component(s.subrange(p.0, p.1))
            &&& forall|j: int| p.0 <= j < p.1 ==> s[j] != '/'
        }) by {
            if i >= head.len() {
                assert(all[i] == rest[i - head.len()]);
            }
        }
        assert forall|i: int, j: int| 0 <= i < j < all.len() implies (#[trigger] all[i]).1 < (
        #[trigger] all[j]).0 by {
            assert(all[j] == rest[j - head.len()]);
            if i >= head.len() {
                assert(all[i] == rest[i - head.len()]);
            }
        }
    } else {
        lemma_spans_from(s, from, at + 1);
        assert(all == spans_from(s, from, at + 1));
    }
}

/// The components of a path lie inside its text, in order.
pub proof fn lemma_spans(s: Seq<char>)
    ensures
        forall|i: int|
            0 <= i < spans(s).len() ==> {
                let p = #[trigger] spans(s)[i];
                &&& 0 <= p.0 < p.1 <= s.len()
                &&& i > 0 ==> is_component(s.subrange(p.0, p.1)) && s[p.0] != '/'
            },
        forall|i: int, j: int|
            0 <= i < j < spans(s).len() ==> (#[trigger] spans(s)[i]).1 <= (#[trigger] spans(s)[j]).0,
{
    if is_absolute(s) || starts_with_dot(s) {
        lemma_spans_from(s, 1, 1);
    } else {
        lemma_spans_from(s, 0, 0);
    }
}

/// Where the components lie, from the segment that starts at `from` on.
fn scan_spans(v: &Vec<char>, from: usize, out: &mut Vec<(usize, usize)>)
    requires
        from <= v@.len(),
    ensures
        final(out)@.len() == old(out)@.len() + spans_from(v@, from as int, from as int).len(),
        final(out)@.take(old(out)@.len() as int) == old(out)@,
        same_spans(
            final(out)@.skip(old(out)@.len() as int),
            spans_from(v@, from as int, from as int),
        ),
{
    let ghost before = out@;
    let ghost all = spans_from(v@, from as int, from as int);
    let ghost mut done: Seq<(int, int)> = Seq::empty();
    let n: usize = v.len();
    let mut start: usize = from;
    let mut i: usize = from;
    assert(out@.take(before.len() as int) =~= before);
    while i < n
        invariant
            from <= start <= i <= n == v@.len(),
            done + spans_from(v@, start as int, i as int) =~= all,
            out@.len() == before.len() + done.len(),
            out@.take(before.len() as int) == before,
            same_spans(out@.skip(before.len() as int), done),
        decreases v@.len() - i,
    {
        if v[i] == '/' {
            let ghost earlier = out@;
            let ghost found = span_if_component(v@, start as int, i as int);
            push_span(v, start, i, out);
            proof {
                let more = done + found;
                assert(out@.take(before.len() as int) =~= before);
                assert(same_spans(out@.skip(before.len() as int), more)) by {
                    assert forall|j: int| 0 <= j < more.len() implies ({
                        let r = #[trigger] out@.skip(before.len() as int)[j];
                        r.0 == more[j].0 && r.1 == more[j].1
                    }) by {
                        if j < done.len() {
                            assert(out@.skip(before.len() as int)[j] == earlier.skip(
                                before.len() as int,
                            )[j]);
                        }
                    }
                }
                assert(more + spans_from(v@, i + 1, i + 1) =~= all);
                done = more;
            }
            start = i + 1;
        }
        i = i + 1;
    }
    let ghost earlier = out@;
    let ghost found = span_if_component(v@, start as int, i as int);
    push_span(v, start, i, out);
    proof {
        let more = done + found;
        assert(more =~= all);
        assert(out@.take(before.len() as int) =~= before);
        assert forall|j: int| 0 <= j < all.len() implies ({
            let r = #[trigger] out@.skip(before.len() as int)[j];
            r.0 == all[j].0 && r.1 == all[j].1
        }) by {
            assert(all[j] == more[j]);
            if j < done.len() {
                assert(out@.skip(before.len() as int)[j] == earlier.skip(before.len() as int)[j]);
            }
        }
    }
}

/// Adds the segment `v[from..to]` to `out` if it is a component.
fn push_span(v: &Vec<char>, from: usize, to: usize, out: &mut Vec<(usize, usize)>)
    requires
        from <= to <= v@.len(),
    ensures
        final(out)@ == old(out)@ + (if is_component(v@.subrange(from as int, to as int)) {
            seq![(from, to)]
        } else {
            Seq::empty()
        }),
{
    let ghost segment = v@.subrange(from as int, to as int);
    if from == to {
        return;
    }
    if to - from == 1 && v[from] == '.' {
        assert(segment =~= seq!['.']);
        return;
    }
    proof {
        if segment.len() == 1 {
            assert(segment[0] == v@[from as int]);
        }
    }
    out.push((from, to));
}

/// Where the components of a path lie.
fn spans_of(v: &Vec<char>) -> (r: Vec<(usize, usize)>)
    ensures
        same_spans(r@, spans(v@)),
{
    let mut r: Vec<(usize, usize)> = Vec::new();
    if v.len() > 0 && (v[0] == '/' || (v[0] == '.' && (v.len() == 1 || v[1] == '/'))) {
        r.push((0, 1));
        scan_spans(v, 1, &mut r);
        proof {
            assert(r@.take(1)[0] == r@[0]);
            assert forall|i: int| 0 <= i < r@.len() implies (#[trigger] r@[i]).0 == spans(v@)[i].0
                && r@[i].1 == spans(v@)[i].1 by {
                if i > 0 {
                    assert(r@[i] == r@.skip(1)[i - 1]);
                }
            }
        }
    } else {
        scan_spans(v, 0, &mut r);
        assert(r@.skip(0) =~= r@);
    }
    r
}

/// Whether the component at `a` of `v` reads like the one at `b` of `w`.
fn same_piece(v: &Vec<char>, a: (usize, usize), w: &Vec<char>, b: (usize, usize)) -> (r: bool)
    requires
        a.0 <= a.1 <= v@.len(),
        b.0 <= b.1 <= w@.len(),
    ensures
        r == (v@.subrange(a.0 as int, a.1 as int) == w@.subrange(b.0 as int, b.1 as int)),
{
    let ghost x = v@.subrange(a.0 as int, a.1 as int);
    let ghost y = w@.subrange(b.0 as int, b.1 as int);
    if a.1 - a.0 != b.1 - b.0 {
        assert(x.len() != y.len());
        return false;
    }
    let mut i: usize = 0;
    while i < a.1 - a.0
        invariant
            a.0 <= a.1 <= v@.len(),
            b.0 <= b.1 <= w@.len(),
            a.1 - a.0 == b.1 - b.0,
            i <= a.1 - a.0,
            x == v@.subrange(a.0 as int, a.1 as int),
            y == w@.subrange(b.0 as int, b.1 as int),
            forall|j: int| 0 <= j < i ==> x[j] == y[j],
        decreases a.1 - a.0 - i,
    {
        if v[a.0 + i] != w[b.0 + i] {
            assert(x[i as int] != y[i as int]);
            return false;
        }
        i = i + 1;
    }
    assert(x =~= y);
    true
}

/// Whether the components of `path` start with those of `base`.
fn has_prefix(
    path: &Vec<char>,
    path_spans: &Vec<(usize, usize)>,
    base: &Vec<char>,
    base_spans: &Vec<(usize, usize)>,
) -> (r: bool)
    requires
        same_spans(path_spans@, spans(path@)),
        same_spans(base_spans@, spans(base@)),
    ensures
        r == (components(base@).len() <= components(path@).len() && components(path@).take(
            components(base@).len() as int,
        ) == components(base@)),
{
    proof {
        lemma_spans(path@);
        lemma_spans(base@);
    }
    if base_spans.len() > path_spans.len() {
        return false;
    }
    let ghost p = components(path@);
    let ghost b = components(base@);
    let mut i: usize = 0;
    while i < base_spans.len()
        invariant
            i <= base_spans@.len() <= path_spans@.len(),
            same_spans(path_spans@, spans(path@)),
            same_spans(base_spans@, spans(base@)),
            p == components(path@),
            b == components(base@),
            forall|j: int| 0 <= j < i ==> p[j] == b[j],
            forall|j: int|
                0 <= j < spans(path@).len() ==> 0 <= (#[trigger] spans(path@)[j]).0 < spans(
                    path@,
                )[j].1 <= path@.len(),
            forall|j: int|
                0 <= j < spans(base@).len() ==> 0 <= (#[trigger] spans(base@)[j]).0 < spans(
                    base@,
                )[j].1 <= base@.len(),
        decreases base_spans@.len() - i,
    {
        assert(spans(path@)[i as int].0 < spans(path@)[i as int].1);
        assert(spans(base@)[i as int].0 < spans(base@)[i as int].1);
        if !same_piece(path, path_spans[i], base, base_spans[i]) {
            assert(p[i as int] != b[i as int]);
            assert(p.take(b.len() as int)[i as int] == p[i as int]);
            return false;
        }
        assert(p[i as int] == b[i as int]);
        i = i + 1;
    }
    assert(p.take(b.len() as int) =~= b);
    true
}

/// What is left of `path` after the components of `base`; `None` if it does not
/// start with them.
pub fn strip_prefix(path: &str, base: &str) -> (r: Option<String>)
    ensures
        match r {
            Some(rest) => stripped(path@, base@) == Some(rest@),
            None => stripped(path@, base@) is None,
        },
{
    let p = chars_of(path);
    let b = chars_of(base);
    let ps = spans_of(&p);
    let bs = spans_of(&b);
    if !has_prefix(&p, &ps, &b, &bs) {
        return None;
    }
    if bs.len() == ps.len() {
        return Some(String::new());
    }
    let n: usize = bs.len();
    let last: usize = ps.len() - 1;
    proof {
        lemma_spans(p@);
        assert(spans(p@)[n as int].0 < spans(p@)[n as int].1);
        assert(spans(p@)[last as int].0 < spans(p@)[last as int].1);
        if n < last {
            assert(spans(p@)[n as int].1 <= spans(p@)[last as int].0);
        }
    }
    Some(string_from(&p, ps[n].0, ps[last].1))
}

/// Whether two texts name the same path.
pub fn same_path(a: &str, b: &str) -> (r: bool)
    ensures
        r == same_components(a@, b@),
{
    let x = chars_of(a);
    let y = chars_of(b);
    let xs = spans_of(&x);
    let ys = spans_of(&y);
    if xs.len() != ys.len() {
        assert(components(a@).len() != components(b@).len());
        return false;
    }
    let r: bool = has_prefix(&x, &xs, &y, &ys);
    assert(components(a@).take(components(b@).len() as int) =~= components(a@));
    r
}

/// The extension of a path; empty where it has none.
pub fn extension_of(path: &str) -> (r: String)
    ensures
        r@ == extension(path@),
{
    let v = chars_of(path);
    let s = spans_of(&v);
    if s.len() == 0 {
        return String::new();
    }
    let last: usize = s.len() - 1;
    let (from, to): (usize, usize) = s[last];
    proof {
        lemma_spans(v@);
        assert(spans(v@)[last as int].0 < spans(v@)[last as int].1);
        assert(components(v@).last() == v@.subrange(from as int, to as int));
    }
    let ghost name = v@.subrange(from as int, to as int);
    let special: bool = (to - from == 1 && (v[from] == '/' || v[from] == '.')) || (to - from == 2
        && v[from] == '.' && v[from + 1] == '.');
    proof {
        assert(name =~= seq!['/'] <==> to - from == 1 && v@[from as int] == '/') by {
            if to - from == 1 && v@[from as int] == '/' {
                assert(name =~= seq!['/']);
            }
            if name == seq!['/'] {
                assert(name[0] == v@[from as int]);
            }
        }
        assert(name =~= seq!['.'] <==> to - from == 1 && v@[from as int] == '.') by {
            if to - from == 1 && v@[from as int] == '.' {
                assert(name =~= seq!['.']);
            }
            if name == seq!['.'] {
                assert(name[0] == v@[from as int]);
            }
        }
        assert(name =~= seq!['.', '.'] <==> to - from == 2 && v@[from as int] == '.' && v@[from + 1]
            == '.') by {
            if to - from == 2 && v@[from as int] == '.' && v@[from + 1] == '.' {
                assert(name =~= seq!['.', '.']);
            }
            if name == seq!['.', '.'] {
                assert(name[0] == v@[from as int]);
                assert(name[1] == v@[from + 1]);
            }
        }
    }
    if special {
        return String::new();
    }
    let mut i: usize = to;
    assert(name.take(to - from) =~= name);
    while i > from
        invariant
            from <= i <= to <= v@.len(),
            name == v@.subrange(from as int, to as int),
            last_dot(name) == last_dot(name.take(i - from)),
            file_name(v@) == Some(name),
            v@ == path@,
        decreases i,
    {
        proof {
            assert(name.take(i - from).last() == v@[i - 1]);
            assert(name.take(i - from).drop_last() =~= name.take(i - from - 1));
        }
        if v[i - 1] == '.' {
            if i - 1 == from {
                return String::new();
            }
            assert(name.skip(last_dot(name) + 1) =~= v@.subrange(i as int, to as int));
            return string_from(&v, i, to);
        }
        i = i - 1;
    }
    String::new()
}


/// Positions moved to the left.
spec fn moved(spans: Seq<(int, int)>, by: int) -> Seq<(int, int)> {
    spans.map_values(|p: (int, int)| (p.0 - by, p.1 - by))
}

/// The components of a text lie where they lay in the longer text that it is
/// the end of.
proof fn lemma_spans_of_skip(s: Seq<char>, a: int, from: int, at: int)
    requires
        0 <= a <= from <= at <= s.len(),
    ensures
        spans_from(s.skip(a), from - a, at - a) == moved(spans_from(s, from, at), a),
    decreases s.len() - at,
{
    let t = s.skip(a);
    if at >= s.len() {
        assert(t.subrange(from - a, t.len() as int) =~= s.subrange(from, s.len() as int));
        assert(spans_from(t, from - a, at - a) =~= moved(spans_from(s, from, at), a));
    } else if s[at] == '/' {
        lemma_spans_of_skip(s, a, at + 1, at + 1);
        assert(t[at - a] == '/');
        assert(t.subrange(from - a, at - a) =~= s.subrange(from, at));
        assert(spans_from(t, from - a, at - a) =~= moved(spans_from(s, from, at), a));
    } else {
        lemma_spans_of_skip(s, a, from, at + 1);
        assert(t[at - a] != '/');
    }
}

/// Cutting a text off where its last component ends keeps its components.
proof fn lemma_spans_of_take(s: Seq<char>, e: int, from: int, at: int)
    requires
        0 <= from <= at <= e <= s.len(),
        forall|j: int| from <= j < at ==> s[j] != '/',
        spans_from(s, from, at).len() > 0,
        spans_from(s, from, at).last().1 == e,
    ensures
        spans_from(s.take(e), from, at) == spans_from(s, from, at),
    decreases e - at,
{
    let t = s.take(e);
    let all = spans_from(s, from, at);
    lemma_spans_from(s, from, at);
    if at == e {
        assert(t.subrange(from, e) =~= s.subrange(from, e));
        if e < s.len() {
            if s[e] == '/' {
                lemma_spans_from(s, e + 1, e + 1);
                let rest = spans_from(s, e + 1, e + 1);
                if rest.len() > 0 {
                    assert(all.last() == rest.last());
                    assert(rest[rest.len() - 1].1 >= e + 1);
                }
                assert(all =~= span_if_component(s, from, e));
            } else {
                lemma_spans_from(s, from, e + 1);
                assert(all == spans_from(s, from, e + 1));
                assert(all[all.len() - 1].1 >= e + 1);
            }
        }
    } else if s[at] == '/' {
        assert(t[at] == '/');
        assert(t.subrange(from, at) =~= s.subrange(from, at));
        let head = span_if_component(s, from, at);
        let rest = spans_from(s, at + 1, at + 1);
        assert(all == head + rest);
        if rest.len() > 0 {
            assert(rest.last() == all.last());
            lemma_spans_of_take(s, e, at + 1, at + 1);
        } else {
            assert(all =~= head);
            assert(all.last() == (from, at));
        }
    } else {
        assert(t[at] == s[at]);
        lemma_spans_of_take(s, e, from, at + 1);
    }
}

/// It does not matter how much of a segment is known to hold no separator.
proof fn lemma_spans_from_start(s: Seq<char>, from: int, x: int, at: int)
    requires
        0 <= from <= x <= at <= s.len(),
        forall|j: int| from <= j < at ==> s[j] != '/',
    ensures
        spans_from(s, from, x) == spans_from(s, from, at),
    decreases at - x,
{
    if x < at {
        lemma_spans_from_start(s, from, x + 1, at);
    }
}

/// The components from a given one on are those found from its start.
proof fn lemma_spans_tail(s: Seq<char>, from: int, at: int, k: int)
    requires
        0 <= from <= at <= s.len(),
        forall|j: int| from <= j < at ==> s[j] != '/',
        0 <= k < spans_from(s, from, at).len(),
    ensures
        ({
            let a = spans_from(s, from, at)[k].0;
            spans_from(s, a, a) == spans_from(s, from, at).skip(k)
        }),
    decreases s.len() - at,
{
    let all = spans_from(s, from, at);
    if at >= s.len() {
        assert(all[k] == (from, s.len() as int));
        lemma_spans_from_start(s, from, from, at);
        assert(all.skip(0) =~= all);
    } else if s[at] == '/' {
        let head = span_if_component(s, from, at);
        let rest = spans_from(s, at + 1, at + 1);
        assert(all == head + rest);
        if k < head.len() {
            lemma_spans_from_start(s, from, from, at);
            assert(all.skip(0) =~= all);
        } else {
            lemma_spans_tail(s, at + 1, at + 1, k - head.len());
            assert(all[k] == rest[k - head.len()]);
            assert(all.skip(k) =~= rest.skip(k - head.len()));
        }
    } else {
        lemma_spans_tail(s, from, at + 1, k);
    }
}

/// How many of the components of a path are a leading root or `.`.
spec fn lead(path: Seq<char>) -> int {
    if is_absolute(path) || starts_with_dot(path) {
        1
    } else {
        0
    }
}

/// The text from the `n`-th component to the end of the last one.
spec fn text_from(path: Seq<char>, n: int) -> Seq<char> {
    path.subrange(spans(path)[n].0, spans(path).last().1)
}

/// Where the components of the text from the `n`-th component on lie.
proof fn lemma_spans_of_text_from(path: Seq<char>, n: int)
    requires
        lead(path) <= n < spans(path).len(),
    ensures
        !is_absolute(text_from(path, n)),
        spans(text_from(path, n)) == moved(spans(path).skip(n), spans(path)[n].0),
{
    let all = spans(path);
    let rest = text_from(path, n);
    let a = all[n].0;
    let to = all[n].1;
    let e = all.last().1;
    let found = spans_from(path, lead(path), lead(path));
    let k = n - lead(path);
    let tail = all.skip(n);
    assert(all.skip(lead(path)) =~= found);
    assert(found[k] == all[n]);
    assert(found.skip(k) =~= tail);
    assert(tail.last() == all.last());
    assert(0 <= a < to <= e <= path.len() && is_component(path.subrange(a, to))) by {
        lemma_spans_from(path, lead(path), lead(path));
        assert(found[k].0 < found[k].1);
        assert(found[found.len() - 1] == all.last());
        assert(found[found.len() - 1].1 <= path.len());
        if k < found.len() - 1 {
            assert(found[k].1 < found[found.len() - 1].0);
        }
    }
    assert(forall|j: int| a <= j < to ==> path[j] != '/') by {
        lemma_spans_from(path, lead(path), lead(path));
        let p = found[k];
        assert(forall|j: int| p.0 <= j < p.1 ==> path[j] != '/');
    }
    assert(tail == spans_from(path, a, a)) by {
        lemma_spans_tail(path, lead(path), lead(path), k);
    }
    lemma_spans_of_take(path, e, a, a);
    lemma_spans_of_skip(path.take(e), a, a, a);
    assert(rest =~= path.take(e).skip(a));
    assert(rest[0] == path[a]);
    assert(!starts_with_dot(rest)) by {
        if starts_with_dot(rest) {
            if to > a + 1 {
                assert(rest[1] == path[a + 1]);
            } else {
                assert(path.subrange(a, to) =~= seq!['.']);
            }
        }
    }
}

/// The components of the text from the `n`-th component on.
proof fn lemma_components_of_text_from(path: Seq<char>, n: int)
    requires
        lead(path) <= n < spans(path).len(),
    ensures
        components(text_from(path, n)) == components(path).skip(n),
{
    let all = spans(path);
    let rest = text_from(path, n);
    let a = all[n].0;
    let tail = all.skip(n);
    lemma_spans(path);
    lemma_spans_of_text_from(path, n);
    assert forall|i: int| 0 <= i < tail.len() implies #[trigger] components(rest)[i] == components(
        path,
    )[n + i] by {
        assert(tail[i] == all[n + i]);
        assert(all[n + i].0 < all[n + i].1);
        if n + i < all.len() - 1 {
            assert(all[n + i].1 <= all[all.len() - 1].0);
        }
        if i > 0 {
            assert(all[n].1 <= all[n + i].0);
        }
        assert(rest.subrange(tail[i].0 - a, tail[i].1 - a) =~= path.subrange(tail[i].0, tail[i].1));
    }
    assert(components(rest) =~= components(path).skip(n));
}

/// A path with a leading root or `.` keeps its components when it is cut off
/// where the last one ends.
proof fn lemma_components_of_whole(path: Seq<char>)
    requires
        lead(path) == 1,
    ensures
        components(text_from(path, 0)) == components(path),
{
    let all = spans(path);
    let rest = text_from(path, 0);
    let e = all.last().1;
    let found = spans_from(path, 1, 1);
    lemma_spans(path);
    lemma_spans_from(path, 1, 1);
    assert(all.skip(1) =~= found);
    assert(rest =~= path.take(e));
    if found.len() > 0 {
        assert(found.last() == all.last());
        assert(found[found.len() - 1].0 >= 1);
        lemma_spans_of_take(path, e, 1, 1);
    } else {
        assert(all =~= seq![(0int, 1int)]);
        assert(spans_from(rest, 1, 1) =~= Seq::<(int, int)>::empty());
    }
    assert(rest[0] == path[0]);
    if path.len() > 1 && e > 1 {
        assert(rest[1] == path[1]);
    }
    assert(spans(rest) =~= all);
    assert forall|i: int| 0 <= i < all.len() implies #[trigger] components(rest)[i] == components(
        path,
    )[i] by {
        assert(all[i].0 < all[i].1);
        if i < all.len() - 1 {
            assert(all[i].1 <= all[all.len() - 1].0);
        }
        assert(rest.subrange(all[i].0, all[i].1) =~= path.subrange(all[i].0, all[i].1));
    }
    assert(components(rest) =~= components(path));
}

/// What is left after the components of `base` continues them: the components
/// of `base` and of the rest are together those of the path.  The rest is
/// relative, unless `base` is empty.
pub proof fn law_stripped_path_continues_base(path: Seq<char>, base: Seq<char>)
    requires
        stripped(path, base) is Some,
    ensures
        components(base) + components(stripped(path, base)->0) == components(path),
        components(base).len() > 0 ==> !is_absolute(stripped(path, base)->0),
{
    let rest = stripped(path, base)->0;
    let n = components(base).len() as int;
    assert(components(base) == components(path).take(n));
    assert(components(path).take(n) + components(path).skip(n) =~= components(path));
    if n == spans(path).len() {
        assert(rest =~= Seq::<char>::empty());
        assert(spans(rest) =~= Seq::<(int, int)>::empty());
        assert(components(rest) =~= components(path).skip(n));
    } else if n >= lead(path) {
        lemma_spans_of_text_from(path, n);
        lemma_components_of_text_from(path, n);
    } else {
        lemma_components_of_whole(path);
        assert(components(path).skip(0) =~= components(path));
    }
}

/// What follows the last separator of a path adds at most one component to those of
/// what stands before it.
proof fn lemma_spans_of_join(p: Seq<char>, seg: Seq<char>, from: int, at: int)
    requires
        0 <= from <= at <= p.len(),
        !seg.contains('/'),
    ensures
        ({
            let w = p.push('/') + seg;
            spans_from(w, from, at) == spans_from(p, from, at) + span_if_component(
                w,
                p.len() as int + 1,
                w.len() as int,
            )
        }),
    decreases p.len() - at,
{
    let w = p.push('/') + seg;
    let n = p.len() as int;
    if at == n {
        assert(w[at] == '/');
        assert(w.subrange(from, at) =~= p.subrange(from, n));
        assert forall|j: int| n + 1 <= j < w.len() implies w[j] != '/' by {
            assert(w[j] == seg[j - n - 1]);
            assert(seg.contains(seg[j - n - 1]));
        }
        lemma_spans_from_start(w, n + 1, n + 1, w.len() as int);
        assert(spans_from(w, from, at) =~= spans_from(p, from, at) + span_if_component(
            w,
            n + 1,
            w.len() as int,
        ));
    } else if p[at] == '/' {
        assert(w[at] == '/');
        assert(w.subrange(from, at) =~= p.subrange(from, at));
        lemma_spans_of_join(p, seg, at + 1, at + 1);
        assert(spans_from(w, from, at) =~= spans_from(p, from, at) + span_if_component(
            w,
            n + 1,
            w.len() as int,
        ));
    } else {
        assert(w[at] == p[at]);
        lemma_spans_of_join(p, seg, from, at + 1);
    }
}

/// The components of a path are what stands between its separators, in order: a text
/// without a separator is one component, a leading separator is the root, and what
/// follows a separator is one more, unless it is empty or `.`.
pub proof fn law_components_stand_between_separators(p: Seq<char>, seg: Seq<char>)
    requires
        !seg.contains('/'),
    ensures
        ({
            let more = if seg.len() == 0 || seg == seq!['.'] {
                Seq::<Seq<char>>::empty()
            } else {
                seq![seg]
            };
            &&& p.len() > 0 ==> components(p.push('/') + seg) == components(p) + more
            &&& p.len() == 0 ==> components(p.push('/') + seg) == seq![seq!['/']] + more
        }),
        seg.len() > 0 ==> components(seg) == seq![seg],
        seg.len() == 0 ==> components(seg) == Seq::<Seq<char>>::empty(),
{
    let w = p.push('/') + seg;
    let n = p.len() as int;
    let tail = span_if_component(w, n + 1, w.len() as int);
    let more = if seg.len() == 0 || seg == seq!['.'] {
        Seq::<Seq<char>>::empty()
    } else {
        seq![seg]
    };
    assert(w.subrange(n + 1, w.len() as int) =~= seg);
    if p.len() > 0 {
        lemma_spans(p);
        assert(w[0] == p[0]);
        if p.len() > 1 {
            assert(w[1] == p[1]);
        } else {
            assert(w[1] == '/');
        }
        if lead(p) == 1 {
            lemma_spans_of_join(p, seg, 1, 1);
        } else {
            lemma_spans_of_join(p, seg, 0, 0);
        }
        assert(spans(w) =~= spans(p) + tail);
        assert forall|i: int| 0 <= i < spans(p).len() implies #[trigger] components(w)[i]
            == components(p)[i] by {
            assert(spans(p)[i].0 < spans(p)[i].1);
            assert(w.subrange(spans(p)[i].0, spans(p)[i].1) =~= p.subrange(
                spans(p)[i].0,
                spans(p)[i].1,
            ));
        }
        assert(components(w) =~= components(p) + more);
    } else {
        assert forall|j: int| 1 <= j < w.len() implies w[j] != '/' by {
            assert(w[j] == seg[j - 1]);
            assert(seg.contains(seg[j - 1]));
        }
        lemma_spans_from_start(w, 1, 1, w.len() as int);
        assert(spans(w) =~= seq![(0int, 1int)] + tail);
        assert(w.subrange(0, 1) =~= seq!['/']);
        assert(components(w) =~= seq![seq!['/']] + more);
    }
    assert forall|j: int| 0 <= j < seg.len() implies seg[j] != '/' by {
        assert(seg.contains(seg[j]));
    }
    if seg.len() == 0 {
        assert(spans(seg) =~= Seq::<(int, int)>::empty());
        assert(components(seg) =~= Seq::<Seq<char>>::empty());
    } else if starts_with_dot(seg) {
        assert(seg.len() == 1);
        assert(seg =~= seq!['.']);
        assert(spans_from(seg, 1, 1) =~= Seq::<(int, int)>::empty());
        assert(seg.subrange(0, 1) =~= seg);
        assert(spans(seg) =~= seq![(0int, 1int)]);
        assert(components(seg) =~= seq![seg]);
    } else {
        lemma_spans_from_start(seg, 0, 0, seg.len() as int);
        assert(seg.subrange(0, seg.len() as int) =~= seg);
        assert(is_component(seg)) by {
            if seg == seq!['.'] {
                assert(seg[0] == '.');
            }
        }
        assert(spans(seg) =~= seq![(0int, seg.len() as int)]);
        assert(components(seg) =~= seq![seg]);
    }
}

/// Two texts name the same path exactly if they have the same components, and then they
/// are relative to the same directories and have the same extension.
pub proof fn law_same_path_has_same_components(a: Seq<char>, b: Seq<char>, base: Seq<char>)
    ensures
        same_components(a, b) <==> components(a) == components(b),
        same_components(a, b) ==> extension(a) == extension(b),
        same_components(a, b) ==> (stripped(a, base) is Some <==> stripped(b, base) is Some),
{
}

/// A path starts with another one exactly if its components do, and what is left is
/// then a piece of its text, from the start of the next component to the end of the last.
pub proof fn law_only_a_leading_path_is_stripped(path: Seq<char>, base: Seq<char>)
    ensures
        stripped(path, base) is Some <==> components(base).is_prefix_of(components(path)),
        stripped(path, base) is Some ==> exists|i: int, j: int|
            0 <= i <= j <= path.len() && stripped(path, base)->0 == #[trigger] path.subrange(i, j),
        stripped(path, base) is Some && components(base).len() == components(path).len()
            ==> stripped(path, base)->0.len() == 0,
        stripped(path, base) is Some && components(base).len() < components(path).len() ==> {
            let rest = stripped(path, base)->0;
            let next = components(path)[components(base).len() as int];
            let last = components(path).last();
            &&& rest.len() >= next.len() && rest.take(next.len() as int) == next
            &&& rest.len() >= last.len() && rest.skip(rest.len() - last.len()) == last
        },
{
    let all = spans(path);
    let b = components(base);
    let p = components(path);
    let n = b.len() as int;
    lemma_spans(path);
    if n <= p.len() {
        assert(p.take(n) =~= p.subrange(0, n));
    }
    assert(stripped(path, base) is Some <==> b.is_prefix_of(p));
    if stripped(path, base) is Some {
        let rest = stripped(path, base)->0;
        if n == p.len() {
            assert(rest =~= path.subrange(0, 0));
        } else {
            let i = all[n].0;
            let j = all.last().1;
            assert(all[n].0 < all[n].1);
            assert(all[all.len() - 1].0 < all[all.len() - 1].1);
            if n < all.len() - 1 {
                assert(all[n].1 <= all[all.len() - 1].0);
            }
            assert(rest == path.subrange(i, j));
            let next = p[n];
            let last = p.last();
            assert(next == path.subrange(all[n].0, all[n].1));
            assert(last == path.subrange(all.last().0, all.last().1));
            assert(rest.take(next.len() as int) =~= next);
            assert(rest.skip(rest.len() - last.len()) =~= last);
        }
    }
}

/// Where the last dot of a name is, of which all that follows is known.
proof fn lemma_last_dot(stem: Seq<char>, ext: Seq<char>)
    requires
        !ext.contains('.'),
    ensures
        last_dot(stem.push('.') + ext) == stem.len(),
    decreases ext.len(),
{
    let name = stem.push('.') + ext;
    if ext.len() == 0 {
        assert(name =~= stem.push('.'));
    } else {
        let e = ext.drop_last();
        assert(ext.contains(ext.last()));
        assert(!e.contains('.')) by {
            if e.contains('.') {
                let i = choose|i: int| 0 <= i < e.len() && e[i] == '.';
                assert(ext[i] == '.');
            }
        }
        lemma_last_dot(stem, e);
        assert(name.drop_last() =~= stem.push('.') + e);
    }
}

/// Where the last dot of a name is, if it has none after its first character.
proof fn lemma_no_last_dot(name: Seq<char>)
    requires
        forall|i: int| 0 <= i < name.len() && name[i] == '.' ==> i == 0,
    ensures
        last_dot(name) <= 0,
    decreases name.len(),
{
    if name.len() > 0 && name.last() != '.' {
        let rest = name.drop_last();
        assert forall|i: int| 0 <= i < rest.len() && rest[i] == '.' implies i == 0 by {
            assert(name[i] == '.');
        }
        lemma_no_last_dot(rest);
    }
}

/// The extension of a path is what follows the last dot of its last component.
pub proof fn law_extension_follows_the_last_dot(path: Seq<char>, stem: Seq<char>, ext: Seq<char>)
    requires
        components(path).len() > 0,
        components(path).last() == stem.push('.') + ext,
        stem.len() > 0,
        !ext.contains('.'),
    ensures
        extension(path) == ext,
{
    let name = components(path).last();
    lemma_last_dot(stem, ext);
    assert(name.skip(stem.len() as int + 1) =~= ext);
    assert(name[stem.len() as int] == '.');
    if name == seq!['.', '.'] {
        assert(ext.len() == 0);
    }
    assert(name.len() >= 2);
}

/// A path whose last component has no dot, or only one in front, has no extension, nor
/// has one that leads to a parent directory, or one without components.
pub proof fn law_name_without_a_dot_has_no_extension(path: Seq<char>)
    requires
        components(path).len() > 0 ==> {
            let name = components(path).last();
            name == seq!['.', '.'] || forall|i: int|
                0 <= i < name.len() && name[i] == '.' ==> i == 0
        },
    ensures
        extension(path).len() == 0,
{
    if components(path).len() > 0 {
        let name = components(path).last();
        if name != seq!['.', '.'] {
            lemma_no_last_dot(name);
        }
    }
}

} // verus!
