//! What the text of a configuration says, line by line, and how a configuration is written.

use crate::config_file::{
    after_line, after_lines, config_text, empty_config, entries_text, entry_line, escaped,
    escaped_char, file_says, pair_of, parsed, section_named, section_text, unescaped, value_of,
    ConfigFault, ConfigModel, Section,
};
use crate::config_laws::lemma_escaped_without;
use crate::entries::listing;
use crate::text::{is_space, lemma_span, lines, span, trimmed};
use crate::text_laws::{
    all_space, law_cut_is_at_the_first, law_newlines_end_lines, law_trim_takes_off_the_space_around,
};
use vstd::prelude::*;
use vstd::utf8::encode_utf8;

verus! {

/// Whether a text consists of whole lines: it is empty or its last character is a newline.
pub open spec fn whole_lines(text: Seq<char>) -> bool {
    text.len() == 0 || text.last() == '\n'
}

/// Whether a line opens a section: within the white space around it, it is in square brackets.
pub open spec fn in_brackets(line: Seq<char>) -> bool {
    trimmed(line).len() > 0 && trimmed(line)[0] == '[' && trimmed(line).last() == ']'
}

/// Whether a line is blank or a comment.
pub open spec fn says_nothing(line: Seq<char>) -> bool {
    trimmed(line).len() == 0 || trimmed(line)[0] == '#' || trimmed(line)[0] == ';'
}

/// Whether no line of a text opens a section.
pub open spec fn without_headings(text: Seq<char>) -> bool {
    forall|i: int| 0 <= i < lines(text).len() ==> !in_brackets(#[trigger] lines(text)[i])
}

/// The lines of whole lines and a further text are those of either.
proof fn lemma_lines_joined(u: Seq<char>, v: Seq<char>)
    requires
        whole_lines(u),
    ensures
        lines(u).len() > 0,
        lines(u).last() == Seq::<char>::empty(),
        lines(u + v) == lines(u).drop_last() + lines(v),
    decreases u.len(),
{
    if u.len() == 0 {
        assert(u == Seq::<char>::empty());
        law_newlines_end_lines(u, u);
        assert(u + v == v);
        assert(lines(u).drop_last() + lines(v) == lines(v));
    } else {
        let stops = seq!['\n'];
        assert(stops[0] == '\n');
        lemma_span(u, stops);
        let n = span(u, stops) as int;
        if n == u.len() {
            assert(!stops.contains(u[u.len() - 1]));
        }
        let line = u.take(n);
        let rest = u.skip(n + 1);
        assert forall|i: int| 0 <= i < line.len() implies line[i] != '\n' by {
            assert(!stops.contains(u[i]));
        }
        assert(u[n] == '\n');
        assert(u == line + seq!['\n'] + rest);
        assert(u + v == line + seq!['\n'] + (rest + v));
        if rest.len() > 0 {
            assert(rest.last() == u.last());
        }
        lemma_lines_joined(rest, v);
        law_newlines_end_lines(line, rest);
        law_newlines_end_lines(line, rest + v);
        assert((seq![line] + lines(rest)).drop_last() == seq![line] + lines(rest).drop_last());
        assert(lines(u + v) == lines(u).drop_last() + lines(v));
    }
}

/// The section and the configuration after all of the given lines.
spec fn reached(section: Section, config: ConfigModel, rest: Seq<Seq<char>>) -> Result<
    (Section, ConfigModel),
    ConfigFault,
>
    decreases rest.len(),
{
    if rest.len() == 0 {
        Ok((section, config))
    } else {
        match after_line(section, config, trimmed(rest[0])) {
            Ok((next, changed)) => reached(next, changed, rest.skip(1)),
            Err(fault) => Err(fault),
        }
    }
}

proof fn lemma_reached(section: Section, config: ConfigModel, rest: Seq<Seq<char>>)
    ensures
        after_lines(section, config, rest) == match reached(section, config, rest) {
            Ok((_, out)) => Ok::<ConfigModel, ConfigFault>(out),
            Err(fault) => Err(fault),
        },
    decreases rest.len(),
{
    if rest.len() > 0 {
        if let Ok((next, changed)) = after_line(section, config, trimmed(rest[0])) {
            lemma_reached(next, changed, rest.skip(1));
        }
    }
}

proof fn lemma_reached_joined(
    section: Section,
    config: ConfigModel,
    a: Seq<Seq<char>>,
    b: Seq<Seq<char>>,
)
    ensures
        reached(section, config, a + b) == match reached(section, config, a) {
            Ok((next, changed)) => reached(next, changed, b),
            Err(fault) => Err(fault),
        },
    decreases a.len(),
{
    if a.len() == 0 {
        assert(a + b == b);
    } else {
        assert((a + b)[0] == a[0]);
        assert((a + b).skip(1) == a.skip(1) + b);
        if let Ok((next, changed)) = after_line(section, config, trimmed(a[0])) {
            lemma_reached_joined(next, changed, a.skip(1), b);
        }
    }
}

proof fn lemma_reached_one(section: Section, config: ConfigModel, line: Seq<char>)
    ensures
        reached(section, config, seq![line]) == after_line(section, config, trimmed(line)),
        trimmed(Seq::<char>::empty()) == Seq::<char>::empty(),
        reached(section, config, seq![Seq::<char>::empty()]) == Ok::<
            (Section, ConfigModel),
            ConfigFault,
        >((section, config)),
{
    let none = Seq::<char>::empty();
    law_trim_takes_off_the_space_around(none, none, none);
    assert(none + none + none == none);
    if let Ok((next, changed)) = after_line(section, config, trimmed(line)) {
        assert(seq![line].skip(1) == Seq::<Seq<char>>::empty());
        assert(reached(next, changed, Seq::<Seq<char>>::empty()) == Ok::<
            (Section, ConfigModel),
            ConfigFault,
        >((next, changed)));
        assert(reached(section, config, seq![line]) == reached(next, changed, seq![line].skip(1)));
    }
    assert(seq![none].skip(1) == Seq::<Seq<char>>::empty());
    assert(reached(section, config, seq![none]) == reached(section, config, seq![none].skip(1)));
}

/// What is reached after a text of whole lines.
spec fn read_so_far(text: Seq<char>) -> Result<(Section, ConfigModel), ConfigFault> {
    reached(Section::Other, empty_config(), lines(text))
}

/// Reading goes on from what was reached.
proof fn lemma_read_on(u: Seq<char>, v: Seq<char>)
    requires
        whole_lines(u),
    ensures
        read_so_far(u + v) == match read_so_far(u) {
            Ok((section, config)) => reached(section, config, lines(v)),
            Err(fault) => Err(fault),
        },
        parsed(u) == match read_so_far(u) {
            Ok((_, config)) => Ok::<ConfigModel, ConfigFault>(config),
            Err(fault) => Err(fault),
        },
        parsed(u + v) == match read_so_far(u + v) {
            Ok((_, config)) => Ok::<ConfigModel, ConfigFault>(config),
            Err(fault) => Err(fault),
        },
{
    let none = Seq::<char>::empty();
    let start = lines(u).drop_last();
    lemma_lines_joined(u, v);
    assert(lines(u) == start + seq![none]);
    lemma_reached_joined(Section::Other, empty_config(), start, lines(v));
    lemma_reached_joined(Section::Other, empty_config(), start, seq![none]);
    if let Ok((section, config)) = reached(Section::Other, empty_config(), start) {
        lemma_reached_one(section, config, none);
    }
    lemma_reached(Section::Other, empty_config(), lines(u));
    lemma_reached(Section::Other, empty_config(), lines(u + v));
}

/// Reading goes on by one line, with or without its newline.
proof fn lemma_read_line(u: Seq<char>, line: Seq<char>)
    requires
        whole_lines(u),
        !line.contains('\n'),
    ensures
        whole_lines(u + line + seq!['\n']),
        read_so_far(u + line + seq!['\n']) == match read_so_far(u) {
            Ok((section, config)) => after_line(section, config, trimmed(line)),
            Err(fault) => Err(fault),
        },
        read_so_far(u + line) == read_so_far(u + line + seq!['\n']),
        parsed(u + line) == parsed(u + line + seq!['\n']),
        parsed(u) == match read_so_far(u) {
            Ok((_, config)) => Ok::<ConfigModel, ConfigFault>(config),
            Err(fault) => Err(fault),
        },
        parsed(u + line + seq!['\n']) == match read_so_far(u + line + seq!['\n']) {
            Ok((_, config)) => Ok::<ConfigModel, ConfigFault>(config),
            Err(fault) => Err(fault),
        },
{
    let none = Seq::<char>::empty();
    let ended = line + seq!['\n'];
    assert(u + line + seq!['\n'] == u + ended);
    assert((u + ended).last() == '\n');
    lemma_read_on(u, ended);
    lemma_read_on(u, line);
    law_newlines_end_lines(line, none);
    law_newlines_end_lines(none, none);
    assert(line + seq!['\n'] + none == ended);
    if let Ok((section, config)) = read_so_far(u) {
        lemma_reached_one(section, config, line);
        lemma_reached_joined(section, config, seq![line], seq![none]);
        if let Ok((next, changed)) = after_line(section, config, trimmed(line)) {
            lemma_reached_one(next, changed, none);
        }
    }
}

/// A section lasts until the next heading.
proof fn lemma_section_lasts(section: Section, config: ConfigModel, rest: Seq<Seq<char>>)
    requires
        forall|i: int| 0 <= i < rest.len() ==> !in_brackets(#[trigger] rest[i]),
    ensures
        reached(section, config, rest) matches Ok((last, _)) ==> last == section,
    decreases rest.len(),
{
    if rest.len() > 0 {
        assert(!in_brackets(rest[0]));
        if let Ok((next, changed)) = after_line(section, config, trimmed(rest[0])) {
            let more = rest.skip(1);
            assert forall|i: int| 0 <= i < more.len() implies !in_brackets(#[trigger] more[i]) by {
                assert(more[i] == rest[i + 1]);
            }
            lemma_section_lasts(next, changed, more);
        }
    }
}

/// The section after a heading and lines that are none.
proof fn lemma_section_reached(
    before: Seq<char>,
    heading: Seq<char>,
    inner: Seq<char>,
    body: Seq<char>,
)
    requires
        whole_lines(before),
        whole_lines(body),
        !heading.contains('\n'),
        trimmed(heading) == seq!['['] + inner + seq![']'],
        without_headings(body),
    ensures
        whole_lines(before + heading + seq!['\n'] + body),
        read_so_far(before + heading + seq!['\n'] + body) matches Ok((section, _)) ==> section
            == section_named(trimmed(inner)),
{
    let u = before + heading + seq!['\n'];
    lemma_read_line(before, heading);
    lemma_read_on(u, body);
    if body.len() > 0 {
        assert((u + body).last() == body.last());
    } else {
        assert(u + body == u);
    }
    let t = trimmed(heading);
    assert(t[0] == '[');
    assert(t.last() == ']');
    assert(t.subrange(1, t.len() - 1) == inner);
    if let Ok((section, config)) = read_so_far(u) {
        lemma_section_lasts(section, config, lines(body));
    }
}

/// Nothing is said by a blank line or a comment, wherever it stands.
pub proof fn law_blank_lines_and_comments_say_nothing(text: Seq<char>, line: Seq<char>)
    requires
        whole_lines(text),
        !line.contains('\n'),
        says_nothing(line),
    ensures
        parsed(text + line + seq!['\n']) == parsed(text),
        parsed(text + line) == parsed(text),
{
    lemma_read_line(text, line);
}

/// A heading by itself adds no entry and takes none away.
pub proof fn law_heading_adds_no_entry(text: Seq<char>, line: Seq<char>)
    requires
        whole_lines(text),
        !line.contains('\n'),
        in_brackets(line),
    ensures
        parsed(text + line + seq!['\n']) == parsed(text),
        parsed(text + line) == parsed(text),
{
    lemma_read_line(text, line);
}

/// The last line needs no newline.
pub proof fn law_last_newline_may_be_missing(text: Seq<char>, line: Seq<char>)
    requires
        whole_lines(text),
        !line.contains('\n'),
    ensures
        parsed(text + line) == parsed(text + line + seq!['\n']),
{
    lemma_read_line(text, line);
}

/// The first fault decides, whatever follows.
pub proof fn law_first_fault_decides(text: Seq<char>, rest: Seq<char>)
    requires
        whole_lines(text),
        parsed(text) is Err,
    ensures
        parsed(text + rest) == parsed(text),
{
    lemma_read_on(text, rest);
}

/// A line that is not blank, no comment and no heading, and has no equals sign, is refused, and the
/// error holds the line without the white space around it.
pub proof fn law_line_without_equals_sign_is_refused(text: Seq<char>, line: Seq<char>)
    requires
        whole_lines(text),
        parsed(text) is Ok,
        !line.contains('\n'),
        !says_nothing(line),
        !in_brackets(line),
        !trimmed(line).contains('='),
    ensures
        parsed(text + line) == Err::<ConfigModel, ConfigFault>(
            ConfigFault::InvalidLine(trimmed(line)),
        ),
{
    lemma_read_line(text, line);
    law_cut_is_at_the_first(trimmed(line), '=', Seq::empty());
}

/// Whether a line is an entry, with `left` before its first equals sign and `right` behind it.
pub open spec fn is_entry(line: Seq<char>, left: Seq<char>, right: Seq<char>) -> bool {
    &&& !line.contains('\n')
    &&& !says_nothing(line)
    &&& !in_brackets(line)
    &&& !left.contains('=')
    &&& trimmed(line) == left + seq!['='] + right
}

/// An entry before the first heading is refused.
pub proof fn law_entry_before_the_first_heading_is_refused(
    text: Seq<char>,
    line: Seq<char>,
    left: Seq<char>,
    right: Seq<char>,
)
    requires
        whole_lines(text),
        without_headings(text),
        parsed(text) is Ok,
        is_entry(line, left, right),
    ensures
        parsed(text + line) == Err::<ConfigModel, ConfigFault>(ConfigFault::OutsideSection),
{
    lemma_read_line(text, line);
    law_cut_is_at_the_first(left, '=', right);
    lemma_section_lasts(Section::Other, empty_config(), lines(text));
}

/// An entry behind a heading, with no other heading between them, goes into the section of that
/// name, over an earlier entry with the same key; all other entries and sections stay as they were.
/// Behind a heading with any name but `games`, `managers` and `pipes` it is refused.
pub proof fn law_entry_goes_into_its_section(
    before: Seq<char>,
    heading: Seq<char>,
    inner: Seq<char>,
    body: Seq<char>,
    line: Seq<char>,
    left: Seq<char>,
    right: Seq<char>,
)
    requires
        whole_lines(before),
        whole_lines(body),
        !heading.contains('\n'),
        trimmed(heading) == seq!['['] + inner + seq![']'],
        without_headings(body),
        parsed(before + heading + seq!['\n'] + body) is Ok,
        is_entry(line, left, right),
    ensures
        ({
            let config = parsed(before + heading + seq!['\n'] + body)->Ok_0;
            let out = parsed(before + heading + seq!['\n'] + body + line);
            let key = value_of(left);
            let value = value_of(right);
            let name = trimmed(inner);
            &&& name == "games"@ ==> {
                &&& out is Ok
                &&& out->Ok_0.games == config.games.insert(key, value)
                &&& out->Ok_0.managers == config.managers
                &&& out->Ok_0.pipes == config.pipes
            }
            &&& name == "managers"@ ==> {
                &&& out is Ok
                &&& out->Ok_0.games == config.games
                &&& out->Ok_0.managers == config.managers.insert(key, value)
                &&& out->Ok_0.pipes == config.pipes
            }
            &&& name == "pipes"@ ==> {
                &&& out is Ok
                &&& out->Ok_0.games == config.games
                &&& out->Ok_0.managers == config.managers
                &&& out->Ok_0.pipes == config.pipes.insert(key, value)
            }
            &&& name != "games"@ && name != "managers"@ && name != "pipes"@ ==> out == Err::<
                ConfigModel,
                ConfigFault,
            >(ConfigFault::OutsideSection)
        }),
{
    let u = before + heading + seq!['\n'] + body;
    lemma_section_reached(before, heading, inner, body);
    lemma_read_line(u, line);
    law_cut_is_at_the_first(left, '=', right);
    reveal_strlit("games");
    reveal_strlit("managers");
    reveal_strlit("pipes");
    assert("games"@.len() != "managers"@.len());
    assert("games"@[0] != "pipes"@[0]);
}

/// Whether a text is taken as it stands: it has no white space at its ends and is not both opened
/// and closed by a quote.
pub open spec fn stands_for_itself(s: Seq<char>) -> bool {
    &&& s.len() > 0
    &&& !is_space(s[0])
    &&& !is_space(s.last())
    &&& !(s.len() >= 2 && s[0] == '"' && s.last() == '"')
}

/// Without quotes a key or a value is the text between the white space around it, character for
/// character, backslashes as they stand; white space alone is the empty text.
pub proof fn law_unquoted_text_stands_for_itself(pre: Seq<char>, s: Seq<char>, post: Seq<char>)
    requires
        all_space(pre),
        all_space(post),
        s.len() == 0 || stands_for_itself(s),
    ensures
        value_of(pre + s + post) == s,
{
    law_trim_takes_off_the_space_around(pre, s, post);
}

/// With quotes a key or a value is the text between them, its escapes replaced.
pub proof fn law_quoted_text_is_unescaped(pre: Seq<char>, inner: Seq<char>, post: Seq<char>)
    requires
        all_space(pre),
        all_space(post),
    ensures
        value_of(pre + (seq!['"'] + inner + seq!['"']) + post) == unescaped(inner),
        !inner.contains('\\') ==> value_of(pre + (seq!['"'] + inner + seq!['"']) + post) == inner,
{
    let s = seq!['"'] + inner + seq!['"'];
    assert(s[0] == '"');
    assert(s.last() == '"');
    assert(s.subrange(1, s.len() - 1) == inner);
    assert(!is_space('"'));
    law_trim_takes_off_the_space_around(pre, s, post);
    if !inner.contains('\\') {
        law_text_without_backslash_is_not_unescaped(inner);
    }
}

/// A text without a backslash has nothing to unescape.
pub proof fn law_text_without_backslash_is_not_unescaped(s: Seq<char>)
    requires
        !s.contains('\\'),
    ensures
        unescaped(s) == s,
{
    lemma_unescaped_joined(s, Seq::empty());
    assert(s + Seq::empty() == s);
}

proof fn lemma_unescaped_joined(a: Seq<char>, b: Seq<char>)
    requires
        !a.contains('\\'),
    ensures
        unescaped(a + b) == a + unescaped(b),
    decreases a.len(),
{
    if a.len() == 0 {
        assert(a + b == b);
        assert(a + unescaped(b) == unescaped(b));
    } else {
        let rest = a.skip(1);
        assert(a[0] != '\\');
        assert forall|i: int| 0 <= i < rest.len() implies rest[i] != '\\' by {
            assert(a[i + 1] != '\\');
        }
        assert((a + b).skip(1) == rest + b);
        assert((a + b)[0] == a[0]);
        lemma_unescaped_joined(rest, b);
        assert(seq![a[0]] + (rest + unescaped(b)) == a + unescaped(b));
    }
}

/// A backslash and the character behind it stand for one character: a newline, a carriage return or
/// a tab for `n`, `r` and `t`, and for any other that character itself. A backslash at the very end
/// stands for nothing.
pub proof fn law_first_escape_is_replaced(a: Seq<char>, c: char, b: Seq<char>)
    requires
        !a.contains('\\'),
    ensures
        c == 'n' ==> unescaped(a + seq!['\\', c] + b) == a + seq!['\n'] + unescaped(b),
        c == 'r' ==> unescaped(a + seq!['\\', c] + b) == a + seq!['\r'] + unescaped(b),
        c == 't' ==> unescaped(a + seq!['\\', c] + b) == a + seq!['\t'] + unescaped(b),
        c != 'n' && c != 'r' && c != 't' ==> unescaped(a + seq!['\\', c] + b) == a + seq![c]
            + unescaped(b),
        unescaped(a + seq!['\\']) == a,
{
    let tail = seq!['\\', c] + b;
    assert(a + seq!['\\', c] + b == a + tail);
    lemma_unescaped_joined(a, tail);
    lemma_unescaped_joined(a, seq!['\\']);
    assert(tail[0] == '\\' && tail[1] == c);
    assert(tail.skip(2) == b);
    let d = if c == 'n' {
        '\n'
    } else if c == 'r' {
        '\r'
    } else if c == 't' {
        '\t'
    } else {
        c
    };
    assert(unescaped(tail) == seq![d] + unescaped(b));
    assert(a + (seq![d] + unescaped(b)) == a + seq![d] + unescaped(b));
    assert(a + unescaped(seq!['\\']) == a);
}

/// An unquoted entry is read character for character: behind a heading of a known section, `key`,
/// an equals sign with any white space around it, and `value` map the key to exactly that value.
pub proof fn law_unquoted_entry_is_read_as_it_stands(
    before: Seq<char>,
    heading: Seq<char>,
    inner: Seq<char>,
    body: Seq<char>,
    key: Seq<char>,
    gap: Seq<char>,
    other_gap: Seq<char>,
    value: Seq<char>,
)
    requires
        whole_lines(before),
        whole_lines(body),
        !heading.contains('\n'),
        trimmed(heading) == seq!['['] + inner + seq![']'],
        without_headings(body),
        parsed(before + heading + seq!['\n'] + body) is Ok,
        stands_for_itself(key),
        stands_for_itself(value),
        !key.contains('='),
        key[0] != '#' && key[0] != ';',
        !(key[0] == '[' && value.last() == ']'),
        all_space(gap),
        all_space(other_gap),
        !(key + gap + seq!['='] + other_gap + value).contains('\n'),
    ensures
        ({
            let config = parsed(before + heading + seq!['\n'] + body)->Ok_0;
            let out = parsed(
                before + heading + seq!['\n'] + body + (key + gap + seq!['='] + other_gap + value),
            );
            let name = trimmed(inner);
            &&& name == "games"@ ==> out is Ok && out->Ok_0.games == config.games.insert(key, value)
                && out->Ok_0.managers == config.managers && out->Ok_0.pipes == config.pipes
            &&& name == "managers"@ ==> out is Ok && out->Ok_0.managers == config.managers.insert(
                key,
                value,
            ) && out->Ok_0.games == config.games && out->Ok_0.pipes == config.pipes
            &&& name == "pipes"@ ==> out is Ok && out->Ok_0.pipes == config.pipes.insert(key, value)
                && out->Ok_0.games == config.games && out->Ok_0.managers == config.managers
        }),
{
    let none = Seq::<char>::empty();
    let line = key + gap + seq!['='] + other_gap + value;
    let left = key + gap;
    let right = other_gap + value;
    assert(line[0] == key[0]);
    assert(line.last() == value.last());
    law_trim_takes_off_the_space_around(none, line, none);
    assert(none + line + none == line);
    assert(line == left + seq!['='] + right);
    assert forall|i: int| 0 <= i < left.len() implies left[i] != '=' by {
        if i < key.len() {
            assert(left[i] == key[i]);
        } else {
            assert(left[i] == gap[i - key.len()]);
            assert(!is_space('='));
        }
    }
    law_unquoted_text_stands_for_itself(none, key, gap);
    law_unquoted_text_stands_for_itself(other_gap, value, none);
    assert(none + key + gap == left);
    assert(other_gap + value + none == right);
    law_entry_goes_into_its_section(before, heading, inner, body, line, left, right);
}

/// A backslash, a quote, a newline, a carriage return and a tab are escaped, each by a backslash
/// and one character; every other character is written as it is.
pub proof fn law_which_characters_are_escaped(c: char)
    ensures
        escaped(seq![c]) == if c == '\\' {
            seq!['\\', '\\']
        } else if c == '"' {
            seq!['\\', '"']
        } else if c == '\n' {
            seq!['\\', 'n']
        } else if c == '\r' {
            seq!['\\', 'r']
        } else if c == '\t' {
            seq!['\\', 't']
        } else {
            seq![c]
        },
{
    assert(seq![c].skip(1) == Seq::<char>::empty());
    assert(escaped(seq![c]) == escaped_char(c) + escaped(seq![c].skip(1)));
    assert(escaped_char(c) + Seq::<char>::empty() == escaped_char(c));
}

/// Escaping goes character by character.
pub proof fn law_escaping_goes_by_characters(a: Seq<char>, b: Seq<char>)
    ensures
        escaped(a + b) == escaped(a) + escaped(b),
        escaped(Seq::<char>::empty()) == Seq::<char>::empty(),
    decreases a.len(),
{
    if a.len() == 0 {
        assert(a + b == b);
        assert(escaped(a) + escaped(b) == escaped(b));
    } else {
        assert((a + b)[0] == a[0]);
        assert((a + b).skip(1) == a.skip(1) + b);
        law_escaping_goes_by_characters(a.skip(1), b);
        assert(escaped_char(a[0]) + (escaped(a.skip(1)) + escaped(b)) == escaped(a) + escaped(b));
    }
}

/// The lines of the given entries: key and value between quotes, with their escapes, on either side
/// of an equals sign with a space before and behind it.
pub open spec fn written_entries(pairs: Seq<(Seq<char>, Seq<char>)>) -> Seq<Seq<char>> {
    Seq::new(
        pairs.len(),
        |i: int|
            seq!['"'] + escaped(pairs[i].0) + seq!['"', ' ', '=', ' ', '"'] + escaped(pairs[i].1)
                + seq!['"'],
    )
}

proof fn lemma_entries_lines(pairs: Seq<(Seq<char>, Seq<char>)>)
    ensures
        whole_lines(entries_text(pairs)),
        lines(entries_text(pairs)) == written_entries(pairs) + seq![Seq::<char>::empty()],
    decreases pairs.len(),
{
    let none = Seq::<char>::empty();
    if pairs.len() == 0 {
        law_newlines_end_lines(none, none);
        assert(written_entries(pairs) + seq![none] == seq![none]);
    } else {
        let rest = pairs.skip(1);
        let line = entry_line(pairs[0].0, pairs[0].1);
        let written = written_entries(pairs)[0];
        lemma_entries_lines(rest);
        assert(line == written);
        lemma_escaped_without(pairs[0].0, '\n');
        lemma_escaped_without(pairs[0].1, '\n');
        assert(!line.contains('\n')) by {
            let k = escaped(pairs[0].0);
            let v = escaped(pairs[0].1);
            assert forall|i: int| 0 <= i < line.len() implies line[i] != '\n' by {
                if 1 <= i < 1 + k.len() {
                    assert(line[i] == k[i - 1]);
                } else if 6 + k.len() <= i < 6 + k.len() + v.len() {
                    assert(line[i] == v[i - 6 - k.len()]);
                }
            }
        }
        law_newlines_end_lines(line, entries_text(rest));
        let text = entries_text(pairs);
        assert(text == line + seq!['\n'] + entries_text(rest));
        if entries_text(rest).len() > 0 {
            assert(text.last() == entries_text(rest).last());
        }
        assert forall|i: int| 0 <= i < rest.len() implies written_entries(rest)[i]
            == written_entries(pairs)[i + 1] by {}
        assert(seq![line] + (written_entries(rest) + seq![none]) =~= written_entries(pairs)
            + seq![none]);
    }
}

proof fn lemma_section_lines(name: Seq<char>, values: Map<Seq<char>, Seq<char>>, more: Seq<char>)
    requires
        !name.contains('\n'),
    ensures
        lines(section_text(name, values) + more) == seq![seq!['['] + name + seq![']']]
            + written_entries(listing(values)) + seq![Seq::<char>::empty()] + lines(more),
{
    let none = Seq::<char>::empty();
    let heading = seq!['['] + name + seq![']'];
    let body = entries_text(listing(values));
    let tail = none + seq!['\n'] + more;
    assert(!heading.contains('\n')) by {
        assert forall|i: int| 0 <= i < heading.len() implies heading[i] != '\n' by {
            if 1 <= i < 1 + name.len() {
                assert(heading[i] == name[i - 1]);
            }
        }
    }
    assert(section_text(name, values) + more == heading + seq!['\n'] + (body + tail));
    law_newlines_end_lines(heading, body + tail);
    law_newlines_end_lines(none, more);
    lemma_entries_lines(listing(values));
    lemma_lines_joined(body, tail);
    let written = written_entries(listing(values));
    assert((written + seq![none]).drop_last() == written);
    assert(seq![heading] + (written + (seq![none] + lines(more))) =~= seq![heading] + written
        + seq![none] + lines(more));
}

/// A configuration is written line by line: the games, the managers and the pipes in this order,
/// each as a heading, one line for each entry in the order of the keys, and an empty line.
pub proof fn law_how_a_configuration_is_written(config: ConfigModel)
    ensures
        lines(config_text(config)) == seq!["[games]"@] + written_entries(listing(config.games))
            + seq![Seq::<char>::empty()] + (seq!["[managers]"@] + written_entries(
            listing(config.managers),
        ) + seq![Seq::<char>::empty()] + (seq!["[pipes]"@] + written_entries(listing(config.pipes))
            + seq![Seq::<char>::empty()] + seq![Seq::<char>::empty()])),
{
    let none = Seq::<char>::empty();
    reveal_strlit("games");
    reveal_strlit("managers");
    reveal_strlit("pipes");
    reveal_strlit("[games]");
    reveal_strlit("[managers]");
    reveal_strlit("[pipes]");
    assert(seq!['['] + "games"@ + seq![']'] =~= "[games]"@);
    assert(seq!['['] + "managers"@ + seq![']'] =~= "[managers]"@);
    assert(seq!['['] + "pipes"@ + seq![']'] =~= "[pipes]"@);
    let third = section_text("pipes"@, config.pipes);
    let second = section_text("managers"@, config.managers) + third;
    assert(third + none == third);
    assert(config_text(config) == section_text("games"@, config.games) + second);
    lemma_section_lines("games"@, config.games, second);
    lemma_section_lines("managers"@, config.managers, third);
    lemma_section_lines("pipes"@, config.pipes, none);
    law_newlines_end_lines(none, none);
}

/// No text, no entries.
pub proof fn law_no_text_says_nothing()
    ensures
        parsed(Seq::<char>::empty()) matches Ok(config) && config.games.dom().is_empty()
            && config.managers.dom().is_empty() && config.pipes.dom().is_empty(),
{
    let none = Seq::<char>::empty();
    lemma_read_on(none, none);
    law_newlines_end_lines(none, none);
    lemma_reached_one(Section::Other, empty_config(), none);
}

/// A file of up to 1048576 bytes says what its text says; a larger one is refused unread.
pub proof fn law_large_files_are_refused(text: Seq<char>)
    ensures
        encode_utf8(text).len() <= 1024 * 1024 ==> file_says(text) == parsed(text),
        encode_utf8(text).len() > 1024 * 1024 ==> file_says(text) == Err::<ConfigModel, ConfigFault>(
            ConfigFault::TooLarge,
        ),
{
}

/// The first equals sign of a text parts the key from the value, whatever else the text holds; a
/// text without one is no entry.
pub proof fn law_first_equals_sign_parts_key_and_value(left: Seq<char>, right: Seq<char>)
    requires
        !left.contains('='),
    ensures
        pair_of(left + seq!['='] + right) == Some((value_of(left), value_of(right))),
        pair_of(left) is None,
{
    law_cut_is_at_the_first(left, '=', right);
}

/// Three names are those of a section, each exactly as it is written; no other name is.
pub proof fn law_which_sections_are_known(name: Seq<char>)
    ensures
        section_named(name) == Section::Games <==> name == "games"@,
        section_named(name) == Section::Managers <==> name == "managers"@,
        section_named(name) == Section::Pipes <==> name == "pipes"@,
{
    reveal_strlit("games");
    reveal_strlit("managers");
    reveal_strlit("pipes");
    assert("games"@.len() != "managers"@.len() && "pipes"@.len() != "managers"@.len());
    assert("games"@[0] != "pipes"@[0]);
}

/// A section begins with its name, whole, in square brackets, and a newline; what follows does not
/// depend on the name and has a line for each entry, in the order of the keys, and an empty one.
pub proof fn law_how_a_section_is_written(
    name: Seq<char>,
    other: Seq<char>,
    values: Map<Seq<char>, Seq<char>>,
)
    ensures
        section_text(name, values).take(name.len() as int + 3) == seq!['['] + name + seq![
            ']',
            '\n',
        ],
        section_text(name, values).skip(name.len() as int + 3) == section_text(other, values).skip(
            other.len() as int + 3,
        ),
        lines(section_text(name, values).skip(name.len() as int + 3)) == written_entries(
            listing(values),
        ) + seq![Seq::<char>::empty(), Seq::<char>::empty()],
{
    let none = Seq::<char>::empty();
    let body = entries_text(listing(values));
    let end = seq!['\n'];
    assert(section_text(name, values).take(name.len() as int + 3) =~= seq!['['] + name + seq![
        ']',
        '\n',
    ]);
    assert(section_text(name, values).skip(name.len() as int + 3) =~= body + end);
    assert(section_text(other, values).skip(other.len() as int + 3) =~= body + end);
    lemma_entries_lines(listing(values));
    lemma_lines_joined(body, end);
    law_newlines_end_lines(none, none);
    assert(none + end + none == end);
    let written = written_entries(listing(values));
    assert((written + seq![none]).drop_last() == written);
    assert(written + (seq![none] + seq![none]) =~= written + seq![none, none]);
}

} // verus!
