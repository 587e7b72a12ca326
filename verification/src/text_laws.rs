//! What holds of trimming, cutting, replacing and lower case, whatever the text.

use crate::text::{
    cut, has_prefix, is_space, lemma_span_is, lines, lower, lowered, occurs, replaced,
    span, stands_at, texts, trimmed, trimmed_end, trimmed_start,
};
use vstd::prelude::*;

verus! {

/// Whether a text is white space alone.
pub open spec fn all_space(s: Seq<char>) -> bool {
    forall|i: int| 0 <= i < s.len() ==> is_space(#[trigger] s[i])
}

/// White space at the start goes.
proof fn lemma_start_goes(pre: Seq<char>, s: Seq<char>)
    requires
        all_space(pre),
    ensures
        trimmed_start(pre + s) == trimmed_start(s),
    decreases pre.len(),
{
    if pre.len() == 0 {
        assert(pre + s == s);
    } else {
        let rest = pre.skip(1);
        assert forall|i: int| 0 <= i < rest.len() implies is_space(#[trigger] rest[i]) by {
            assert(rest[i] == pre[i + 1]);
        }
        assert((pre + s)[0] == pre[0]);
        assert((pre + s).skip(1) == rest + s);
        lemma_start_goes(rest, s);
    }
}

/// White space at the end goes.
proof fn lemma_end_goes(s: Seq<char>, post: Seq<char>)
    requires
        all_space(post),
    ensures
        trimmed_end(s + post) == trimmed_end(s),
    decreases post.len(),
{
    if post.len() == 0 {
        assert(s + post == s);
    } else {
        let rest = post.drop_last();
        assert forall|i: int| 0 <= i < rest.len() implies is_space(#[trigger] rest[i]) by {
            assert(rest[i] == post[i]);
        }
        assert((s + post).last() == post.last());
        assert((s + post).drop_last() == s + rest);
        lemma_end_goes(s, rest);
    }
}

/// Trimming takes off the white space around a text, and nothing else; of white space alone nothing
/// is left.
pub proof fn law_trim_takes_off_the_space_around(pre: Seq<char>, s: Seq<char>, post: Seq<char>)
    requires
        all_space(pre),
        all_space(post),
        s.len() == 0 || (!is_space(s[0]) && !is_space(s.last())),
    ensures
        trimmed(pre + s + post) == s,
{
    assert(pre + s + post == pre + (s + post));
    lemma_start_goes(pre, s + post);
    if s.len() == 0 {
        assert(s + post == post + s);
        lemma_start_goes(post, s);
        assert(trimmed_start(s) == s);
        assert(trimmed_end(s) == s);
    } else {
        assert((s + post)[0] == s[0]);
        lemma_end_goes(s, post);
    }
}

/// The numbers of the characters that are white space.
pub proof fn law_what_white_space_is(c: char)
    ensures
        is_space(c) <==> ({
            let n = c as u32;
            ||| 9 <= n <= 13
            ||| n == 32
            ||| n == 133
            ||| n == 160
            ||| n == 5760
            ||| 8192 <= n <= 8202
            ||| n == 8232
            ||| n == 8233
            ||| n == 8239
            ||| n == 8287
            ||| n == 12288
        }),
{
}

/// A text is cut at its first separator: the text before it has none, the text behind it is whole.
pub proof fn law_cut_is_at_the_first(a: Seq<char>, c: char, b: Seq<char>)
    requires
        !a.contains(c),
    ensures
        cut(a + seq![c] + b, c) == Some((a, b)),
        cut(a, c) is None,
{
    let s = a + seq![c] + b;
    let stops = seq![c];
    assert(stops[0] == c);
    assert forall|i: int| 0 <= i < a.len() implies !stops.contains(#[trigger] a[i]) by {}
    assert forall|i: int| 0 <= i < a.len() implies !stops.contains(#[trigger] s[i]) by {
        assert(s[i] == a[i]);
    }
    assert(s[a.len() as int] == c);
    lemma_span_is(s, stops, a.len());
    lemma_span_is(a, stops, a.len());
    assert(s.take(a.len() as int) == a);
    assert(s.skip(a.len() as int + 1) == b);
}

/// A span ends at the first character that is asked for, or with the text.
pub proof fn law_span_ends_at_the_first(a: Seq<char>, b: Seq<char>, stops: Seq<char>)
    requires
        forall|i: int| 0 <= i < a.len() ==> !stops.contains(#[trigger] a[i]),
        b.len() == 0 || stops.contains(b[0]),
    ensures
        span(a + b, stops) == a.len(),
{
    let s = a + b;
    assert forall|i: int| 0 <= i < a.len() implies !stops.contains(#[trigger] s[i]) by {
        assert(s[i] == a[i]);
    }
    if b.len() > 0 {
        assert(s[a.len() as int] == b[0]);
    }
    lemma_span_is(s, stops, a.len());
}

/// Each newline ends a line; what follows the last one is a line too.
pub proof fn law_newlines_end_lines(line: Seq<char>, rest: Seq<char>)
    requires
        !line.contains('\n'),
    ensures
        lines(line + seq!['\n'] + rest) == seq![line] + lines(rest),
        lines(line) == seq![line],
{
    let s = line + seq!['\n'] + rest;
    let stops = seq!['\n'];
    assert(stops[0] == '\n');
    assert forall|i: int| 0 <= i < line.len() implies !stops.contains(#[trigger] line[i]) by {}
    assert forall|i: int| 0 <= i < line.len() implies !stops.contains(#[trigger] s[i]) by {
        assert(s[i] == line[i]);
    }
    lemma_span_is(s, stops, line.len());
    lemma_span_is(line, stops, line.len());
    assert(s.take(line.len() as int) == line);
    assert(s.skip(line.len() as int + 1) == rest);
}

/// A text occurs wherever something stands before it and behind it.
pub proof fn law_what_stands_in_a_text_occurs(a: Seq<char>, pat: Seq<char>, b: Seq<char>)
    ensures
        occurs(a + pat + b, pat),
        stands_at(a + pat + b, a.len() as int, pat),
        has_prefix(pat + b, pat),
{
    let s = a + pat + b;
    assert(s.subrange(a.len() as int, a.len() as int + pat.len()) == pat);
    assert(stands_at(s, a.len() as int, pat));
    assert((pat + b).subrange(0, pat.len() as int) == pat);
}

/// What occurs in a text stands in it, with something before it and behind it.
pub proof fn law_what_occurs_stands_in_the_text(s: Seq<char>, i: int, pat: Seq<char>)
    requires
        stands_at(s, i, pat),
    ensures
        0 <= i <= s.len() - pat.len(),
        s == s.take(i) + pat + s.skip(i + pat.len()),
{
    assert(s == s.take(i) + s.subrange(i, i + pat.len()) + s.skip(i + pat.len()));
}

/// Where a text does not occur, replacing it changes nothing.
pub proof fn law_nothing_to_replace(s: Seq<char>, pat: Seq<char>, with: Seq<char>)
    requires
        !occurs(s, pat),
    ensures
        replaced(s, pat, with) == s,
    decreases s.len(),
{
    if s.len() > 0 {
        assert(!stands_at(s, 0, pat));
        let rest = s.skip(1);
        assert forall|i: int| !stands_at(rest, i, pat) by {
            if stands_at(rest, i, pat) {
                assert(s.subrange(i + 1, i + 1 + pat.len()) == rest.subrange(i, i + pat.len()));
                assert(stands_at(s, i + 1, pat));
            }
        }
        law_nothing_to_replace(rest, pat, with);
        assert(s == seq![s[0]] + rest);
    }
}

/// The first occurrence of a text gives way to the whole of what replaces it; what stands before it
/// stays, and replacing goes on behind it.
pub proof fn law_first_occurrence_is_replaced(
    a: Seq<char>,
    pat: Seq<char>,
    b: Seq<char>,
    with: Seq<char>,
)
    requires
        pat.len() > 0,
        forall|i: int| 0 <= i < a.len() ==> !stands_at(a + pat + b, i, pat),
    ensures
        replaced(a + pat + b, pat, with) == a + with + replaced(b, pat, with),
    decreases a.len(),
{
    let s = a + pat + b;
    if a.len() == 0 {
        assert(s == pat + b);
        assert(s.subrange(0, pat.len() as int) == pat);
        assert(s.skip(pat.len() as int) == b);
        assert(a + with == with);
    } else {
        let rest = a.skip(1);
        let t = rest + pat + b;
        assert(s.skip(1) == t);
        assert forall|i: int| 0 <= i < rest.len() implies !stands_at(t, i, pat) by {
            if stands_at(t, i, pat) {
                assert(s.subrange(i + 1, i + 1 + pat.len()) == t.subrange(i, i + pat.len()));
                assert(stands_at(s, i + 1, pat));
            }
        }
        assert(!stands_at(s, 0, pat));
        law_first_occurrence_is_replaced(rest, pat, b, with);
        assert(s[0] == a[0]);
        assert(seq![a[0]] + (rest + with + replaced(b, pat, with)) == a + with + replaced(
            b,
            pat,
            with,
        ));
    }
}

/// The one occurrence of a text gives way to the whole of what replaces it.
pub proof fn law_one_occurrence_is_replaced(
    a: Seq<char>,
    pat: Seq<char>,
    b: Seq<char>,
    with: Seq<char>,
)
    requires
        pat.len() > 0,
        forall|i: int| 0 <= i < a.len() ==> !stands_at(a + pat + b, i, pat),
        !occurs(b, pat),
    ensures
        replaced(a + pat + b, pat, with) == a + with + b,
{
    law_first_occurrence_is_replaced(a, pat, b, with);
    law_nothing_to_replace(b, pat, with);
}

/// Lower case changes the letters A to Z alone, each to the one 32 places behind it, and keeps
/// their places.
pub proof fn law_lower_case_changes_capitals_alone(s: Seq<char>, i: int)
    requires
        0 <= i < s.len(),
    ensures
        lowered(s).len() == s.len(),
        !('A' <= s[i] <= 'Z') ==> lowered(s)[i] == s[i],
        'A' <= s[i] <= 'Z' ==> lowered(s)[i] as u32 == s[i] as u32 + 32,
        !('A' <= lowered(s)[i] <= 'Z'),
{
    let c = s[i];
    assert(lowered(s)[i] == lower(c));
    if 'A' <= c <= 'Z' {
        let n = (c as u8) + 32;
        assert(97 <= n <= 122);
    }
}

/// Lower case is made once, and piece by piece.
pub proof fn law_lower_case_goes_by_characters(a: Seq<char>, b: Seq<char>)
    ensures
        lowered(a + b) == lowered(a) + lowered(b),
        lowered(lowered(a)) == lowered(a),
{
    assert(lowered(a + b) =~= lowered(a) + lowered(b));
    assert forall|i: int| 0 <= i < a.len() implies lowered(lowered(a))[i] == lowered(a)[i] by {
        law_lower_case_changes_capitals_alone(a, i);
        law_lower_case_changes_capitals_alone(lowered(a), i);
    }
    assert(lowered(lowered(a)) =~= lowered(a));
}

/// A text stands at a place of another where the characters from there on are its own, one for one;
/// it occurs where it stands at some place, and is a prefix where it stands at the first one.
pub proof fn law_where_a_text_stands(s: Seq<char>, i: int, pat: Seq<char>)
    ensures
        stands_at(s, i, pat) <==> {
            &&& 0 <= i <= s.len() - pat.len()
            &&& forall|k: int| 0 <= k < pat.len() ==> #[trigger] pat[k] == s[i + k]
        },
        has_prefix(s, pat) <==> stands_at(s, 0, pat),
        stands_at(s, i, pat) ==> occurs(s, pat),
        occurs(s, pat) ==> exists|j: int| stands_at(s, j, pat),
{
    if 0 <= i <= s.len() - pat.len() {
        let part = s.subrange(i, i + pat.len());
        if forall|k: int| 0 <= k < pat.len() ==> #[trigger] pat[k] == s[i + k] {
            assert(part =~= pat);
        }
        if part == pat {
            assert forall|k: int| 0 <= k < pat.len() implies #[trigger] pat[k] == s[i + k] by {
                assert(part[k] == s[i + k]);
            }
        }
    }
}

/// The texts of strings are theirs, one for one.
pub proof fn law_texts_are_one_for_one(strings: Seq<String>, i: int)
    requires
        0 <= i < strings.len(),
    ensures
        texts(strings).len() == strings.len(),
        texts(strings)[i] == strings[i]@,
{
}

} // verus!
