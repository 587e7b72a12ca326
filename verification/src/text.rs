//! Strings as sequences of characters: trimming, cutting, comparing and replacing.

use vstd::prelude::*;
use vstd::string::*;

verus! {

/// `String::push`: appends one character at the end of the string.
pub assume_specification[ String::push ](s: &mut String, c: char)
    ensures
        final(s)@ == old(s)@.push(c),
;

/// The characters of a string, in order.
pub fn to_chars(s: &str) -> (out: Vec<char>)
    ensures
        out@ == s@,
{
    let mut out: Vec<char> = Vec::new();
    for c in it: s.chars()
        invariant
            it.seq() == s@,
            out@ == s@.take(it.index() as int),
    {
        out.push(c);
    }
    out
}

/// Whether two strings hold the same characters.
pub fn same_text(a: &str, b: &str) -> (same: bool)
    ensures
        same == (a@ == b@),
{
    a.to_owned() == b.to_owned()
}

/// Whether a character has the Unicode property `White_Space`.
pub open spec fn is_space(c: char) -> bool {
    ||| '\u{9}' <= c <= '\u{d}'
    ||| c == ' '
    ||| c == '\u{85}'
    ||| c == '\u{a0}'
    ||| c == '\u{1680}'
    ||| '\u{2000}' <= c <= '\u{200a}'
    ||| c == '\u{2028}'
    ||| c == '\u{2029}'
    ||| c == '\u{202f}'
    ||| c == '\u{205f}'
    ||| c == '\u{3000}'
}

/// Whether a character is white space.
pub fn is_whitespace(c: char) -> (space: bool)
    ensures
        space == is_space(c),
{
    ('\u{9}' <= c && c <= '\u{d}') || c == ' ' || c == '\u{85}' || c == '\u{a0}' || c == '\u{1680}'
        || ('\u{2000}' <= c && c <= '\u{200a}') || c == '\u{2028}' || c == '\u{2029}' || c
        == '\u{202f}' || c == '\u{205f}' || c == '\u{3000}'
}

/// The text without the white space at its start.
pub open spec fn trimmed_start(s: Seq<char>) -> Seq<char>
    decreases s.len(),
{
    if s.len() > 0 && is_space(s[0]) {
        trimmed_start(s.skip(1))
    } else {
        s
    }
}

/// The text without the white space at its end.
pub open spec fn trimmed_end(s: Seq<char>) -> Seq<char>
    decreases s.len(),
{
    if s.len() > 0 && is_space(s.last()) {
        trimmed_end(s.drop_last())
    } else {
        s
    }
}

/// The text without the white space around it.
pub open spec fn trimmed(s: Seq<char>) -> Seq<char> {
    trimmed_end(trimmed_start(s))
}

/// The part of a string that is left when the white space around it is taken off.
pub fn trim(s: &str) -> (out: &str)
    ensures
        out@ == trimmed(s@),
{
    let chars = to_chars(s);
    let mut from: usize = 0;
    assert(s@.skip(0) == s@);
    while from < chars.len() && is_whitespace(chars[from])
        invariant
            from <= chars@.len(),
            chars@ == s@,
            trimmed_start(s@) == trimmed_start(s@.skip(from as int)),
        decreases chars@.len() - from,
    {
        assert(s@.skip(from as int).skip(1) == s@.skip(from + 1));
        from += 1;
    }
    let mut to: usize = chars.len();
    assert(s@.subrange(from as int, to as int) == s@.skip(from as int));
    while to > from && is_whitespace(chars[to - 1])
        invariant
            from <= to <= chars@.len(),
            chars@ == s@,
            trimmed(s@) == trimmed_end(s@.subrange(from as int, to as int)),
        decreases to,
    {
        assert(s@.subrange(from as int, to as int).drop_last() == s@.subrange(
            from as int,
            to - 1,
        ));
        to -= 1;
    }
    s.substring_char(from, to)
}

/// The number of characters before the first one that is in `stops`;
/// the length of the text where there is none.
pub open spec fn span(s: Seq<char>, stops: Seq<char>) -> nat
    decreases s.len(),
{
    if s.len() == 0 || stops.contains(s[0]) {
        0
    } else {
        1 + span(s.skip(1), stops)
    }
}

/// What the characters before, and at, the end of a span are.
pub proof fn lemma_span(s: Seq<char>, stops: Seq<char>)
    ensures
        span(s, stops) <= s.len(),
        forall|i: int| 0 <= i < span(s, stops) ==> !stops.contains(#[trigger] s[i]),
        span(s, stops) < s.len() ==> stops.contains(s[span(s, stops) as int]),
    decreases s.len(),
{
    if s.len() > 0 && !stops.contains(s[0]) {
        let rest = s.skip(1);
        lemma_span(rest, stops);
        assert forall|i: int| 0 <= i < span(s, stops) implies !stops.contains(#[trigger] s[i]) by {
            if i > 0 {
                assert(s[i] == rest[i - 1]);
            }
        }
    }
}

/// A span is the only length with these properties.
pub proof fn lemma_span_is(s: Seq<char>, stops: Seq<char>, n: nat)
    requires
        n <= s.len(),
        forall|i: int| 0 <= i < n ==> !stops.contains(#[trigger] s[i]),
        n < s.len() ==> stops.contains(s[n as int]),
    ensures
        span(s, stops) == n,
{
    lemma_span(s, stops);
    let m = span(s, stops);
    if m < n {
        assert(!stops.contains(s[m as int]));
    }
    if n < m {
        assert(!stops.contains(s[n as int]));
    }
}

/// The number of characters of `s` before the first one that is in `stops`.
pub fn span_of(s: &str, stops: &Vec<char>) -> (n: usize)
    ensures
        n == span(s@, stops@),
{
    let chars = to_chars(s);
    let mut n: usize = 0;
    while n < chars.len() && !holds(stops, chars[n])
        invariant
            n <= chars@.len(),
            chars@ == s@,
            forall|i: int| 0 <= i < n ==> !stops@.contains(#[trigger] s@[i]),
        decreases chars@.len() - n,
    {
        n += 1;
    }
    proof {
        lemma_span_is(s@, stops@, n as nat);
    }
    n
}

/// Whether a character is among the given ones.
fn holds(chars: &Vec<char>, c: char) -> (found: bool)
    ensures
        found == chars@.contains(c),
{
    let mut i: usize = 0;
    while i < chars.len()
        invariant
            i <= chars@.len(),
            forall|j: int| 0 <= j < i ==> chars@[j] != c,
        decreases chars@.len() - i,
    {
        if chars[i] == c {
            return true;
        }
        i += 1;
    }
    false
}

/// The text before and the text after the first `c`, where there is one.
pub open spec fn cut(s: Seq<char>, c: char) -> Option<(Seq<char>, Seq<char>)> {
    let n = span(s, seq![c]);
    if n < s.len() {
        Some((s.take(n as int), s.skip(n as int + 1)))
    } else {
        None
    }
}

/// Splits a string at the first `c`, which is in neither part.
pub fn split_once(s: &str, c: char) -> (out: Option<(&str, &str)>)
    ensures
        match (out, cut(s@, c)) {
            (Some((a, b)), Some((x, y))) => a@ == x && b@ == y,
            (None, None) => true,
            _ => false,
        },
{
    let stops: Vec<char> = vec![c];
    assert(stops@ == seq![c]);
    let n = span_of(s, &stops);
    let len = s.unicode_len();
    if n < len {
        Some((s.substring_char(0, n), s.substring_char(n + 1, len)))
    } else {
        None
    }
}

/// The characters of each string in a sequence.
pub open spec fn texts(v: Seq<String>) -> Seq<Seq<char>> {
    Seq::new(v.len(), |i: int| v[i]@)
}

/// The pieces of a text between its newlines.
pub open spec fn lines(s: Seq<char>) -> Seq<Seq<char>>
    decreases s.len(),
{
    let n = span(s, seq!['\n']);
    if n < s.len() {
        seq![s.take(n as int)] + lines(s.skip(n as int + 1))
    } else {
        seq![s]
    }
}

/// Splits a string at its newlines.
pub fn split_lines(s: &str) -> (out: Vec<String>)
    ensures
        texts(out@) == lines(s@),
{
    let chars = to_chars(s);
    let ghost stops = seq!['\n'];
    let mut out: Vec<String> = Vec::new();
    let mut line: String = String::new();
    let ghost mut start: int = 0;
    let mut i: usize = 0;
    assert(s@.skip(0) == s@);
    assert(texts(out@) + lines(s@) == lines(s@));
    while i < chars.len()
        invariant
            i <= chars@.len(),
            chars@ == s@,
            stops == seq!['\n'],
            0 <= start <= i,
            line@ == s@.subrange(start, i as int),
            forall|j: int| start <= j < i ==> #[trigger] s@[j] != '\n',
            texts(out@) + lines(s@.skip(start)) == lines(s@),
        decreases chars@.len() - i,
    {
        let c = chars[i];
        if c == '\n' {
            proof {
                let rest = s@.skip(start);
                assert(stops[0] == '\n');
                lemma_span_is(rest, stops, (i - start) as nat);
                assert(rest.take(i - start) == line@);
                assert(rest.skip(i - start + 1) == s@.skip(i + 1));
                assert(texts(out@.push(line)) == texts(out@).push(line@));
                assert(texts(out@).push(line@) + lines(s@.skip(i + 1)) == texts(out@) + (seq![line@]
                    + lines(s@.skip(i + 1))));
                start = i + 1;
            }
            out.push(line);
            line = String::new();
        } else {
            line.push(c);
        }
        i += 1;
    }
    proof {
        let rest = s@.skip(start);
        lemma_span_is(rest, stops, rest.len());
        assert(rest == line@);
        assert(texts(out@.push(line)) == texts(out@) + seq![line@]);
    }
    out.push(line);
    out
}

/// Whether `pat` stands in `s` at position `i`.
pub open spec fn stands_at(s: Seq<char>, i: int, pat: Seq<char>) -> bool {
    0 <= i && i + pat.len() <= s.len() && s.subrange(i, i + pat.len()) == pat
}

/// Whether `pat` stands anywhere in `s`.
pub open spec fn occurs(s: Seq<char>, pat: Seq<char>) -> bool {
    exists|i: int| stands_at(s, i, pat)
}

/// Whether a text starts with another.
pub open spec fn has_prefix(s: Seq<char>, pat: Seq<char>) -> bool {
    stands_at(s, 0, pat)
}

/// Whether `pat` stands in `chars` at position `i`.
fn found_at(chars: &Vec<char>, i: usize, pat: &Vec<char>) -> (found: bool)
    requires
        i <= chars@.len(),
    ensures
        found == stands_at(chars@, i as int, pat@),
{
    let len = chars.len();
    if len - i < pat.len() {
        return false;
    }
    let mut k: usize = 0;
    while k < pat.len()
        invariant
            k <= pat@.len(),
            i + pat@.len() <= chars@.len(),
            len == chars@.len(),
            forall|j: int| 0 <= j < k ==> chars@[i + j] == #[trigger] pat@[j],
        decreases pat@.len() - k,
    {
        if chars[i + k] != pat[k] {
            assert(chars@.subrange(i as int, i + pat@.len())[k as int] == chars@[i + k]);
            return false;
        }
        k += 1;
    }
    assert(chars@.subrange(i as int, i + pat@.len()) == pat@);
    true
}

/// Whether `s` starts with `pat`.
pub fn starts_with(s: &str, pat: &str) -> (found: bool)
    ensures
        found == has_prefix(s@, pat@),
{
    found_at(&to_chars(s), 0, &to_chars(pat))
}

/// Whether `pat` stands anywhere in `s`.
pub fn contains(s: &str, pat: &str) -> (found: bool)
    ensures
        found == occurs(s@, pat@),
{
    let chars = to_chars(s);
    let want = to_chars(pat);
    let mut i: usize = 0;
    while i < chars.len()
        invariant
            i <= chars@.len(),
            chars@ == s@,
            want@ == pat@,
            forall|j: int| 0 <= j < i ==> !stands_at(s@, j, pat@),
        decreases chars@.len() - i,
    {
        if found_at(&chars, i, &want) {
            return true;
        }
        i += 1;
    }
    found_at(&chars, i, &want)
}

/// The text in which every occurrence of `pat`, taken from the left and without overlap,
/// gave way to `with`.
pub open spec fn replaced(s: Seq<char>, pat: Seq<char>, with: Seq<char>) -> Seq<char>
    decreases s.len(),
{
    if pat.len() == 0 || s.len() == 0 {
        s
    } else if has_prefix(s, pat) {
        with + replaced(s.skip(pat.len() as int), pat, with)
    } else {
        seq![s[0]] + replaced(s.skip(1), pat, with)
    }
}

/// Replaces every occurrence of a text that is not empty.
pub fn replace(s: &str, pat: &str, with: &str) -> (out: String)
    requires
        pat@.len() > 0,
    ensures
        out@ == replaced(s@, pat@, with@),
{
    let chars = to_chars(s);
    let want = to_chars(pat);
    let mut out: String = String::new();
    let mut i: usize = 0;
    assert(s@.skip(0) == s@);
    while i < chars.len()
        invariant
            i <= chars@.len(),
            chars@ == s@,
            want@ == pat@,
            pat@.len() > 0,
            out@ + replaced(s@.skip(i as int), pat@, with@) == replaced(s@, pat@, with@),
        decreases chars@.len() - i,
    {
        let ghost rest = s@.skip(i as int);
        let ghost done = out@;
        assert(i + pat@.len() <= s@.len() ==> rest.subrange(0, pat@.len() as int) == s@.subrange(
            i as int,
            i + pat@.len(),
        ));
        if found_at(&chars, i, &want) {
            assert(rest.skip(pat@.len() as int) == s@.skip(i + pat@.len()));
            out.append(with);
            assert(done + (with@ + replaced(s@.skip(i + pat@.len()), pat@, with@)) == out@ + replaced(
                s@.skip(i + pat@.len()),
                pat@,
                with@,
            ));
            i += want.len();
        } else {
            assert(rest.skip(1) == s@.skip(i + 1));
            out.push(chars[i]);
            assert(done + (seq![rest[0]] + replaced(s@.skip(i + 1), pat@, with@)) == out@
                + replaced(s@.skip(i + 1), pat@, with@));
            i += 1;
        }
    }
    out
}

/// The ASCII letter in lower case; any other character as it is.
pub open spec fn lower(c: char) -> char {
    if 'A' <= c <= 'Z' {
        ((c as u8) + 32) as char
    } else {
        c
    }
}

/// The text with its ASCII letters in lower case.
pub open spec fn lowered(s: Seq<char>) -> Seq<char> {
    s.map_values(|c: char| lower(c))
}

/// Turns the ASCII letters of a string into lower case.
pub fn to_lower(s: &str) -> (out: String)
    ensures
        out@ == lowered(s@),
{
    let chars = to_chars(s);
    let mut out: String = String::new();
    let mut i: usize = 0;
    while i < chars.len()
        invariant
            i <= chars@.len(),
            chars@ == s@,
            out@ == lowered(s@.take(i as int)),
        decreases chars@.len() - i,
    {
        let c = chars[i];
        if 'A' <= c && c <= 'Z' {
            out.push((c as u8 + 32) as char);
        } else {
            out.push(c);
        }
        assert(lowered(s@.take(i + 1)) == lowered(s@.take(i as int)).push(lower(c)));
        i += 1;
    }
    assert(s@.take(s@.len() as int) == s@);
    out
}

} // verus!
