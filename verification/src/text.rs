//! Text as a sequence of characters: the small string operations that the
//! other modules build on, each with its meaning over `Seq<char>`.

use vstd::prelude::*;
use vstd::string::*;

verus! {

/// `String::push` appends one character at the end of the string.
pub assume_specification[ String::push ](s: &mut String, c: char)
    ensures
        final(s)@ == old(s)@.push(c),
;

/// The text of a decimal digit.
pub open spec fn digit_char(d: int) -> char {
    (48 + d) as char
}

/// The decimal notation of a number, without leading zeros.
pub open spec fn decimal(n: nat) -> Seq<char>
    decreases n,
{
    if n < 10 {
        seq![digit_char(n as int)]
    } else {
        decimal(n / 10).push(digit_char((n % 10) as int))
    }
}

/// `s` with every occurrence of `from` replaced by the text `with`.
pub open spec fn replace_char(s: Seq<char>, from: char, with: Seq<char>) -> Seq<char>
    decreases s.len(),
{
    if s.len() == 0 {
        Seq::empty()
    } else {
        replace_char(s.drop_last(), from, with) + if s.last() == from {
            with
        } else {
            seq![s.last()]
        }
    }
}

/// `s` with the occurrences of `pat` replaced by `with`, searched from left to
/// right without overlap.
pub open spec fn replace_all(s: Seq<char>, pat: Seq<char>, with: Seq<char>) -> Seq<char>
    decreases s.len(),
{
    if pat.len() == 0 || s.len() < pat.len() {
        s
    } else if s.take(pat.len() as int) == pat {
        with + replace_all(s.skip(pat.len() as int), pat, with)
    } else {
        seq![s[0]] + replace_all(s.skip(1), pat, with)
    }
}

/// Whether a character has the Unicode `White_Space` property.
pub open spec fn is_space(c: char) -> bool {
    ||| '\u{9}' <= c <= '\u{d}'
    ||| c == ' '
    ||| c == '\u{85}'
    ||| c == '\u{a0}'
    ||| c == '\u{1680}'
    ||| '\u{2000}' <= c <= '\u{200a}'
    ||| c == '\u{2028}'
    ||| c == '\u{2029}'
    ||| c == '\u{202f}'
    ||| c == '\u{205f}'
    ||| c == '\u{3000}'
}

/// `s` without the white space at its start.
pub open spec fn trim_start(s: Seq<char>) -> Seq<char>
    decreases s.len(),
{
    if s.len() > 0 && is_space(s[0]) {
        trim_start(s.skip(1))
    } else {
        s
    }
}

/// `s` without the white space at its end.
pub open spec fn trim_end(s: Seq<char>) -> Seq<char>
    decreases s.len(),
{
    if s.len() > 0 && is_space(s.last()) {
        trim_end(s.drop_last())
    } else {
        s
    }
}

/// The lower-case form of an ASCII letter; other characters stay as they are.
pub open spec fn ascii_lower(c: char) -> char {
    if 'A' <= c <= 'Z' {
        (c as int + 32) as char
    } else {
        c
    }
}

/// `s` with every ASCII letter in lower case.
pub open spec fn ascii_lower_all(s: Seq<char>) -> Seq<char> {
    s.map_values(|c: char| ascii_lower(c))
}

/// The characters of a string.
pub fn chars_of(s: &str) -> (v: Vec<char>)
    ensures
        v@ == s@,
{
    let mut v: Vec<char> = Vec::new();
    for c in it: s.chars()
        invariant
            v@ == it.seq().take(it.index() as int),
            it.seq() == s@,
    {
        v.push(c);
    }
    v
}

/// The string made of the characters `v[from..to]`.
pub fn string_from(v: &Vec<char>, from: usize, to: usize) -> (s: String)
    requires
        from <= to <= v@.len(),
    ensures
        s@ == v@.subrange(from as int, to as int),
{
    let mut s: String = String::new();
    let mut i: usize = from;
    while i < to
        invariant
            from <= i <= to <= v@.len(),
            s@ == v@.subrange(from as int, i as int),
        decreases to - i,
    {
        s.push(v[i]);
        i = i + 1;
    }
    s
}

/// Whether two strings hold the same text.
pub fn same_text(a: &str, b: &str) -> (r: bool)
    ensures
        r == (a@ == b@),
{
    a.to_owned() == b.to_owned()
}

/// Replaces every `from` in `s` by `with`.
pub fn replace_char_in(s: &str, from: char, with: &str) -> (r: String)
    ensures
        r@ == replace_char(s@, from, with@),
{
    let mut r: String = String::new();
    for c in it: s.chars()
        invariant
            r@ == replace_char(it.seq().take(it.index() as int), from, with@),
            it.seq() == s@,
    {
        proof {
            let done = it.seq().take(it.index() as int + 1);
            assert(done.drop_last() =~= it.seq().take(it.index() as int));
        }
        if c == from {
            r.append(with);
        } else {
            r.push(c);
        }
    }
    assert(s@.take(s@.len() as int) =~= s@);
    r
}

/// Whether `v[at..]` starts with `pat`.
fn starts_with_at(v: &Vec<char>, at: usize, pat: &Vec<char>) -> (r: bool)
    requires
        at <= v@.len(),
    ensures
        r == (v@.len() - at >= pat@.len() && v@.skip(at as int).take(pat@.len() as int) == pat@),
{
    if v.len() - at < pat.len() {
        return false;
    }
    let mut i: usize = 0;
    while i < pat.len()
        invariant
            at + pat@.len() <= v@.len() <= usize::MAX,
            i <= pat@.len(),
            forall|j: int| 0 <= j < i ==> v@[at + j] == pat@[j],
        decreases pat@.len() - i,
    {
        if v[at + i] != pat[i] {
            assert(v@.skip(at as int).take(pat@.len() as int)[i as int] == v@[at + i]);
            return false;
        }
        i = i + 1;
    }
    assert(v@.skip(at as int).take(pat@.len() as int) =~= pat@);
    true
}

/// Replaces the occurrences of `pat` in `s` by `with`, from left to right.
pub fn replace_all_in(s: &str, pat: &str, with: &str) -> (r: String)
    requires
        pat@.len() > 0,
    ensures
        r@ == replace_all(s@, pat@, with@),
{
    let v = chars_of(s);
    let p = chars_of(pat);
    let mut r: String = String::new();
    let mut i: usize = 0;
    assert(v@.skip(0) =~= v@);
    while i < v.len()
        invariant
            i <= v@.len(),
            p@ == pat@,
            p@.len() > 0,
            v@ == s@,
            r@ + replace_all(v@.skip(i as int), p@, with@) =~= replace_all(v@, p@, with@),
        decreases v@.len() - i,
    {
        let ghost rest = v@.skip(i as int);
        let ghost before = r@;
        if starts_with_at(&v, i, &p) {
            r.append(with);
            proof {
                assert(rest.skip(p@.len() as int) =~= v@.skip(i + p@.len()));
                assert(r@ + replace_all(v@.skip(i + p@.len()), p@, with@) =~= before + replace_all(
                    rest,
                    p@,
                    with@,
                ));
            }
            i = i + p.len();
        } else {
            r.push(v[i]);
            proof {
                assert(rest.skip(1) =~= v@.skip(i + 1));
                assert(rest[0] == v@[i as int]);
                if rest.len() < p@.len() {
                    assert(replace_all(v@.skip(i + 1), p@, with@) == v@.skip(i + 1));
                    assert(rest =~= seq![rest[0]] + v@.skip(i + 1));
                }
                assert(before.push(v@[i as int]) + replace_all(v@.skip(i + 1), p@, with@)
                    =~= before + replace_all(rest, p@, with@));
            }
            i = i + 1;
        }
    }
    assert(v@.skip(i as int) =~= Seq::<char>::empty());
    assert(replace_all(v@.skip(i as int), p@, with@) =~= Seq::<char>::empty());
    r
}

/// Appends the decimal notation of `n` to `out`.
pub fn push_decimal(out: &mut String, n: u64)
    ensures
        final(out)@ == old(out)@ + decimal(n as nat),
    decreases n,
{
    if n >= 10 {
        push_decimal(out, n / 10);
    }
    let d: u8 = (n % 10) as u8;
    out.push((48 + d) as char);
}

/// The decimal notation of `n`.
pub fn decimal_string(n: u64) -> (r: String)
    ensures
        r@ == decimal(n as nat),
{
    let mut r: String = String::new();
    push_decimal(&mut r, n);
    r
}

/// Whether a character is white space.
pub fn is_space_char(c: char) -> (r: bool)
    ensures
        r == is_space(c),
{
    ('\u{9}' <= c && c <= '\u{d}') || c == ' ' || c == '\u{85}' || c == '\u{a0}' || c == '\u{1680}'
        || ('\u{2000}' <= c && c <= '\u{200a}') || c == '\u{2028}' || c == '\u{2029}' || c
        == '\u{202f}' || c == '\u{205f}' || c == '\u{3000}'
}

/// The text without white space at either end.
pub fn trimmed(s: &str) -> (r: String)
    ensures
        r@ == trim_end(trim_start(s@)),
{
    let v = chars_of(s);
    let mut from: usize = 0;
    assert(v@.skip(0) =~= v@);
    while from < v.len() && is_space_char(v[from])
        invariant
            from <= v@.len(),
            trim_start(v@) == trim_start(v@.skip(from as int)),
        decreases v@.len() - from,
    {
        assert(v@.skip(from as int).skip(1) =~= v@.skip(from + 1));
        from = from + 1;
    }
    let ghost body = v@.skip(from as int);
    assert(trim_start(v@) == body);
    let mut to: usize = v.len();
    assert(v@.subrange(from as int, to as int) =~= body);
    while to > from && is_space_char(v[to - 1])
        invariant
            from <= to <= v@.len(),
            trim_end(v@.subrange(from as int, to as int)) == trim_end(body),
        decreases to,
    {
        assert(v@.subrange(from as int, to as int).drop_last() =~= v@.subrange(
            from as int,
            to - 1,
        ));
        assert(v@.subrange(from as int, to as int).last() == v@[to - 1]);
        to = to - 1;
    }
    proof {
        let kept = v@.subrange(from as int, to as int);
        if kept.len() > 0 {
            assert(kept.last() == v@[to - 1]);
        }
    }
    string_from(&v, from, to)
}

/// The text with every ASCII letter in lower case.
pub fn lower_ascii(s: &str) -> (r: String)
    ensures
        r@ == ascii_lower_all(s@),
{
    let mut r: String = String::new();
    for c in it: s.chars()
        invariant
            r@ == ascii_lower_all(it.seq().take(it.index() as int)),
            it.seq() == s@,
    {
        let lower: char = if 'A' <= c && c <= 'Z' {
            (c as u8 + 32) as char
        } else {
            c
        };
        r.push(lower);
        assert(r@ =~= ascii_lower_all(it.seq().take(it.index() as int + 1)));
    }
    assert(s@.take(s@.len() as int) =~= s@);
    r
}

/// The number that a decimal notation stands for.
pub open spec fn decimal_value(s: Seq<char>) -> int
    decreases s.len(),
{
    if s.len() == 0 {
        0
    } else {
        decimal_value(s.drop_last()) * 10 + (s.last() as int - '0' as int)
    }
}

/// The decimal notation of a number reads back as the number.  It is made of digits,
/// and starts with a zero only if it is nothing else.
pub proof fn law_decimal_reads_back(n: nat)
    ensures
        decimal_value(decimal(n)) == n,
        decimal(n).len() > 0,
        forall|i: int| 0 <= i < decimal(n).len() ==> '0' <= (#[trigger] decimal(n)[i]) <= '9',
        decimal(n).len() > 1 ==> decimal(n)[0] != '0',
    decreases n,
{
    let s = decimal(n);
    if n < 10 {
        assert(s.drop_last() =~= Seq::<char>::empty());
        assert(decimal_value(s.drop_last()) == 0);
    } else {
        law_decimal_reads_back(n / 10);
        assert(s.drop_last() =~= decimal(n / 10));
        assert forall|i: int| 0 <= i < s.len() implies '0' <= (#[trigger] s[i]) <= '9' by {
            if i < s.len() - 1 {
                assert(s[i] == decimal(n / 10)[i]);
            }
        }
        if n / 10 < 10 {
            assert(decimal(n / 10)[0] == digit_char((n / 10) as int));
        } else {
            law_decimal_reads_back(n / 10 / 10);
        }
        assert(s[0] == decimal(n / 10)[0]);
    }
}

/// Replacing a character goes through a text character by character: each other
/// character stays, each of that kind becomes the replacement, and nothing else
/// happens.
pub proof fn law_replacing_goes_char_by_char(
    before: Seq<char>,
    c: char,
    after: Seq<char>,
    from: char,
    with: Seq<char>,
)
    ensures
        replace_char(before.push(c) + after, from, with) == replace_char(before, from, with) + (
        if c == from {
            with
        } else {
            seq![c]
        }) + replace_char(after, from, with),
        replace_char(Seq::empty(), from, with) == Seq::<char>::empty(),
    decreases after.len(),
{
    let s = before.push(c) + after;
    if after.len() == 0 {
        assert(s =~= before.push(c));
        assert(s.drop_last() =~= before);
        assert(replace_char(after, from, with) =~= Seq::<char>::empty());
        assert(replace_char(s, from, with) =~= replace_char(before, from, with) + (if c == from {
            with
        } else {
            seq![c]
        }) + replace_char(after, from, with));
    } else {
        law_replacing_goes_char_by_char(before, c, after.drop_last(), from, with);
        assert(s.drop_last() =~= before.push(c) + after.drop_last());
        assert(replace_char(s, from, with) =~= replace_char(before, from, with) + (if c == from {
            with
        } else {
            seq![c]
        }) + replace_char(after, from, with));
    }
}

/// Whether a pattern stands in a text at the position `i`.
pub open spec fn occurs_at(s: Seq<char>, pat: Seq<char>, i: int) -> bool {
    0 <= i && i + pat.len() <= s.len() && s.subrange(i, i + pat.len()) == pat
}

/// The first occurrence of a pattern is replaced, what stands before it stays, and the
/// text after it is treated in the same way.
pub proof fn law_first_occurrence_is_replaced(
    s: Seq<char>,
    pat: Seq<char>,
    with: Seq<char>,
    i: int,
)
    requires
        pat.len() > 0,
        occurs_at(s, pat, i),
        forall|j: int| 0 <= j < i ==> !occurs_at(s, pat, j),
    ensures
        replace_all(s, pat, with) == s.take(i) + with + replace_all(
            s.skip(i + pat.len()),
            pat,
            with,
        ),
    decreases i,
{
    let n = pat.len() as int;
    assert(s.take(n) =~= s.subrange(0, n));
    if i == 0 {
        assert(s.take(0) + with =~= with);
    } else {
        let t = s.skip(1);
        assert(!occurs_at(s, pat, 0));
        assert(t.subrange(i - 1, i - 1 + n) =~= s.subrange(i, i + n));
        assert forall|j: int| 0 <= j < i - 1 implies !occurs_at(t, pat, j) by {
            assert(!occurs_at(s, pat, j + 1));
            if j + n <= t.len() {
                assert(t.subrange(j, j + n) =~= s.subrange(j + 1, j + 1 + n));
            }
        }
        law_first_occurrence_is_replaced(t, pat, with, i - 1);
        assert(t.skip(i - 1 + n) =~= s.skip(i + n));
        assert(seq![s[0]] + (t.take(i - 1) + with + replace_all(s.skip(i + n), pat, with))
            =~= s.take(i) + with + replace_all(s.skip(i + n), pat, with));
    }
}

/// A text in which a pattern does not occur stays as it is.
pub proof fn law_without_occurrence_nothing_is_replaced(
    s: Seq<char>,
    pat: Seq<char>,
    with: Seq<char>,
)
    requires
        forall|j: int| !occurs_at(s, pat, j),
    ensures
        replace_all(s, pat, with) == s,
    decreases s.len(),
{
    let n = pat.len() as int;
    if n > 0 && s.len() >= n {
        assert(!occurs_at(s, pat, 0));
        assert(s.take(n) =~= s.subrange(0, n));
        let t = s.skip(1);
        assert forall|j: int| !occurs_at(t, pat, j) by {
            assert(!occurs_at(s, pat, j + 1));
            if 0 <= j && j + n <= t.len() {
                assert(t.subrange(j, j + n) =~= s.subrange(j + 1, j + 1 + n));
            }
        }
        law_without_occurrence_nothing_is_replaced(t, pat, with);
        assert(seq![s[0]] + t =~= s);
    }
}

/// Which characters are white space, by their code points.
pub proof fn law_white_space(c: char)
    ensures
        is_space(c) <==> {
            let u = c as int;
            9 <= u <= 13 || u == 32 || u == 133 || u == 160 || u == 5760 || 8192 <= u <= 8202 || u
                == 8232 || u == 8233 || u == 8239 || u == 8287 || u == 12288
        },
{
}

/// Whether a text is made of white space.
pub open spec fn all_space(s: Seq<char>) -> bool {
    forall|i: int| 0 <= i < s.len() ==> is_space(#[trigger] s[i])
}

/// Whether a text has no white space at either end.
pub open spec fn no_space_around(s: Seq<char>) -> bool {
    s.len() > 0 ==> !is_space(s[0]) && !is_space(s.last())
}

/// White space at the start of a text is taken off, whatever follows.
proof fn lemma_trim_start(a: Seq<char>, rest: Seq<char>)
    requires
        all_space(a),
    ensures
        trim_start(a + rest) == trim_start(rest),
    decreases a.len(),
{
    if a.len() == 0 {
        assert(a + rest =~= rest);
    } else {
        let t = a.skip(1);
        assert forall|i: int| 0 <= i < t.len() implies is_space(#[trigger] t[i]) by {
            assert(t[i] == a[i + 1]);
        }
        lemma_trim_start(t, rest);
        assert((a + rest).skip(1) =~= t + rest);
        assert(is_space(a[0]));
    }
}

/// White space at the end of a text is taken off, whatever stands before.
proof fn lemma_trim_end(head: Seq<char>, b: Seq<char>)
    requires
        all_space(b),
    ensures
        trim_end(head + b) == trim_end(head),
    decreases b.len(),
{
    if b.len() == 0 {
        assert(head + b =~= head);
    } else {
        let t = b.drop_last();
        assert forall|i: int| 0 <= i < t.len() implies is_space(#[trigger] t[i]) by {
            assert(t[i] == b[i]);
        }
        lemma_trim_end(head, t);
        assert((head + b).drop_last() =~= head + t);
        assert(is_space(b[b.len() - 1]));
    }
}

/// Trimming takes off the white space around a text, all of it and nothing else.
pub proof fn law_trimming_takes_white_space_off(a: Seq<char>, word: Seq<char>, b: Seq<char>)
    requires
        all_space(a),
        all_space(b),
        no_space_around(word),
    ensures
        trim_end(trim_start(a + word + b)) == word,
{
    assert(a + word + b =~= a + (word + b));
    lemma_trim_start(a, word + b);
    if word.len() == 0 {
        assert(word + b =~= b);
        assert(b + Seq::<char>::empty() =~= b);
        lemma_trim_start(b, Seq::empty());
        assert(trim_start(b) =~= Seq::<char>::empty());
        assert(word =~= Seq::<char>::empty());
    } else {
        assert((word + b)[0] == word[0]);
        lemma_trim_end(word, b);
    }
}

/// Lower case changes the ASCII capital letters and nothing else: at each position
/// stands the small letter of a capital, or the very character.
pub proof fn law_lower_case_changes_capitals_only(s: Seq<char>, i: int)
    ensures
        ascii_lower_all(s).len() == s.len(),
        0 <= i < s.len() ==> {
            let c = s[i];
            let lower = ascii_lower_all(s)[i];
            if 65 <= c as int && c as int <= 90 {
                lower as int == c as int + 32
            } else {
                lower == c
            }
        },
{
}

/// Two texts after each other are treated one after the other.
pub proof fn lemma_replace_char_concat(a: Seq<char>, b: Seq<char>, from: char, with: Seq<char>)
    ensures
        replace_char(a + b, from, with) == replace_char(a, from, with) + replace_char(
            b,
            from,
            with,
        ),
    decreases b.len(),
{
    if b.len() == 0 {
        assert(a + b =~= a);
        assert(replace_char(a, from, with) + replace_char(b, from, with) =~= replace_char(
            a,
            from,
            with,
        ));
    } else {
        lemma_replace_char_concat(a, b.drop_last(), from, with);
        assert((a + b).drop_last() =~= a + b.drop_last());
        assert(replace_char(a + b, from, with) =~= replace_char(a, from, with) + replace_char(
            b,
            from,
            with,
        ));
    }
}

/// A text without the character stays as it is.
pub proof fn lemma_nothing_to_replace(s: Seq<char>, from: char, with: Seq<char>)
    requires
        !s.contains(from),
    ensures
        replace_char(s, from, with) == s,
    decreases s.len(),
{
    if s.len() == 0 {
        assert(replace_char(s, from, with) =~= s);
    } else {
        let rest = s.drop_last();
        assert(s.contains(s.last()));
        assert(!rest.contains(from)) by {
            if rest.contains(from) {
                let i = choose|i: int| 0 <= i < rest.len() && rest[i] == from;
                assert(s[i] == from);
            }
        }
        lemma_nothing_to_replace(rest, from, with);
        assert(rest.push(s.last()) =~= s);
        assert(replace_char(s, from, with) =~= s);
    }
}

} // verus!
