//! What holds of the configuration as a whole.

use crate::config_file::{
    after_line, after_lines, assigned, config_text, deregistered, empty_config, entries_text,
    entry_line, escaped, escaped_char, file_says, finite, fits, is_blank, manager_of, pair_of,
    parsed, pipe_refusal, piped, quoted, registered, save_step_after, section_named, section_text,
    unescaped, unescaped_char, value_of, with_entry, ConfigFault, ConfigModel, SaveStep, Section,
};
use crate::entries::{
    as_map, ascending, lemma_key_at, lemma_listing_exists, lemma_skip_first, listing,
};
use crate::pipe::{pipe_char, valid_pipe_name};
use crate::text::{
    is_space, lemma_span, lemma_span_is, lines, span, trimmed, trimmed_end, trimmed_start,
};
use vstd::prelude::*;

verus! {

/// Unescaping gives back what was escaped.
pub proof fn law_unescape_undoes_escape(s: Seq<char>)
    ensures
        unescaped(escaped(s)) == s,
    decreases s.len(),
{
    if s.len() > 0 {
        let first = escaped_char(s[0]);
        let rest = escaped(s.skip(1));
        law_unescape_undoes_escape(s.skip(1));
        assert(escaped(s) == first + rest);
        if first.len() == 2 {
            assert((first + rest).skip(2) == rest);
            assert(unescaped_char(first[1]) == s[0]);
        } else {
            assert((first + rest).skip(1) == rest);
        }
        assert(s == seq![s[0]] + s.skip(1));
    }
}

/// Escaping brings in no character but backslashes, quotes and letters.
pub(crate) proof fn lemma_escaped_without(s: Seq<char>, c: char)
    requires
        c == '\n' || (c == '=' && !s.contains('=')),
    ensures
        !escaped(s).contains(c),
    decreases s.len(),
{
    if s.len() > 0 {
        let first = escaped_char(s[0]);
        let rest = s.skip(1);
        if c == '=' {
            assert(s[0] != c);
            assert forall|i: int| 0 <= i < rest.len() implies rest[i] != c by {
                assert(s[i + 1] != c);
            }
        }
        lemma_escaped_without(rest, c);
        assert(forall|i: int| 0 <= i < first.len() ==> first[i] != c);
        assert forall|i: int| 0 <= i < escaped(s).len() implies escaped(s)[i] != c by {
            if i >= first.len() {
                assert(escaped(s)[i] == escaped(rest)[i - first.len()]);
            }
        }
    }
}

/// A text without white space at its ends is left as it is by trimming.
proof fn lemma_trimmed_same(s: Seq<char>)
    requires
        s.len() > 0,
        !is_space(s[0]),
        !is_space(s.last()),
    ensures
        trimmed(s) == s,
{
}

/// What stands between quotes is read back, with or without a space around the quotes.
proof fn lemma_value_of_quoted(s: Seq<char>)
    ensures
        value_of(quoted(s)) == s,
        value_of(quoted(s) + seq![' ']) == s,
        value_of(seq![' '] + quoted(s)) == s,
{
    let q = quoted(s);
    lemma_trimmed_same(q);
    assert(q.subrange(1, q.len() - 1) == escaped(s));
    law_unescape_undoes_escape(s);
    let after = q + seq![' '];
    assert(trimmed_start(after) == after);
    assert(after.drop_last() == q);
    assert(trimmed_end(after) == trimmed_end(q));
    let ahead = seq![' '] + q;
    assert(ahead.skip(1) == q);
    assert(trimmed_start(ahead) == trimmed_start(q));
}

/// A written entry is read back, where its key has no equals sign.
proof fn lemma_entry_read_back(
    section: Section,
    config: ConfigModel,
    key: Seq<char>,
    value: Seq<char>,
)
    requires
        section != Section::Other,
        !key.contains('='),
    ensures
        after_line(section, config, trimmed(entry_line(key, value))) == Ok::<_, ConfigFault>(
            (section, with_entry(config, section, key, value)),
        ),
{
    let line = entry_line(key, value);
    let left = quoted(key) + seq![' '];
    let right = seq![' '] + quoted(value);
    let stops = seq!['='];
    lemma_escaped_without(key, '=');
    lemma_trimmed_same(line);
    assert(line == left + stops + right);
    let n = left.len();
    assert forall|i: int| 0 <= i < n implies !stops.contains(#[trigger] line[i]) by {
        assert(line[i] == left[i]);
        if 0 < i < n - 2 {
            assert(left[i] == escaped(key)[i - 1]);
        }
    }
    assert(stops.contains(line[n as int])) by {
        assert(stops[0] == '=');
    }
    lemma_span_is(line, stops, n);
    assert(line.take(n as int) == left);
    assert(line.skip(n as int + 1) == right);
    lemma_value_of_quoted(key);
    lemma_value_of_quoted(value);
}

/// The first line of a text, and the lines after it.
proof fn lemma_first_line(line: Seq<char>, rest: Seq<char>)
    requires
        !line.contains('\n'),
    ensures
        lines(line + seq!['\n'] + rest) == seq![line] + lines(rest),
{
    let s = line + seq!['\n'] + rest;
    let stops = seq!['\n'];
    assert forall|i: int| 0 <= i < line.len() implies !stops.contains(#[trigger] s[i]) by {
        assert(s[i] == line[i]);
    }
    assert(stops[0] == '\n');
    lemma_span_is(s, stops, line.len());
    assert(s.take(line.len() as int) == line);
    assert(s.skip(line.len() as int + 1) == rest);
}

/// A line at the start of a text is taken first.
proof fn lemma_after_first_line(
    section: Section,
    config: ConfigModel,
    line: Seq<char>,
    rest: Seq<char>,
)
    requires
        !line.contains('\n'),
    ensures
        after_lines(section, config, lines(line + seq!['\n'] + rest)) == match after_line(
            section,
            config,
            trimmed(line),
        ) {
            Ok((next, changed)) => after_lines(next, changed, lines(rest)),
            Err(fault) => Err(fault),
        },
{
    lemma_first_line(line, rest);
    let all = seq![line] + lines(rest);
    assert(all.skip(1) == lines(rest));
}

/// The configuration with all of the given entries in one section.
spec fn with_entries(
    config: ConfigModel,
    section: Section,
    pairs: Seq<(Seq<char>, Seq<char>)>,
) -> ConfigModel
    decreases pairs.len(),
{
    if pairs.len() == 0 {
        config
    } else {
        with_entries(with_entry(config, section, pairs[0].0, pairs[0].1), section, pairs.skip(1))
    }
}

/// Written entries are read back, where their keys have no equals sign.
proof fn lemma_entries_read_back(
    section: Section,
    config: ConfigModel,
    pairs: Seq<(Seq<char>, Seq<char>)>,
    rest: Seq<char>,
)
    requires
        section != Section::Other,
        forall|i: int| 0 <= i < pairs.len() ==> !(#[trigger] pairs[i]).0.contains('='),
    ensures
        after_lines(section, config, lines(entries_text(pairs) + rest)) == after_lines(
            section,
            with_entries(config, section, pairs),
            lines(rest),
        ),
    decreases pairs.len(),
{
    if pairs.len() == 0 {
        assert(entries_text(pairs) + rest == rest);
    } else {
        let (key, value) = pairs[0];
        let line = entry_line(key, value);
        let more = pairs.skip(1);
        let tail = entries_text(more) + rest;
        assert(entries_text(pairs) + rest == line + seq!['\n'] + tail);
        lemma_escaped_without(key, '\n');
        lemma_escaped_without(value, '\n');
        assert(!quoted(key).contains('\n'));
        assert(!quoted(value).contains('\n'));
        assert(!line.contains('\n'));
        lemma_after_first_line(section, config, line, tail);
        lemma_entry_read_back(section, config, key, value);
        assert forall|i: int| 0 <= i < more.len() implies !(#[trigger] more[i]).0.contains(
            '=',
        ) by {
            assert(more[i] == pairs[i + 1]);
        }
        lemma_entries_read_back(section, with_entry(config, section, key, value), more, rest);
    }
}

/// The headings that are written open their sections.
proof fn lemma_heading_read_back(
    section: Section,
    config: ConfigModel,
    name: Seq<char>,
    rest: Seq<char>,
)
    requires
        name == "games"@ || name == "managers"@ || name == "pipes"@,
    ensures
        after_lines(section, config, lines(seq!['['] + name + seq![']', '\n'] + rest))
            == after_lines(section_named(name), config, lines(rest)),
{
    reveal_strlit("games");
    reveal_strlit("managers");
    reveal_strlit("pipes");
    let line = seq!['['] + name + seq![']'];
    assert(seq!['['] + name + seq![']', '\n'] + rest == line + seq!['\n'] + rest);
    assert forall|i: int| 0 <= i < line.len() implies line[i] != '\n' by {
        if 0 < i < line.len() - 1 {
            assert(line[i] == name[i - 1]);
        }
    }
    lemma_after_first_line(section, config, line, rest);
    lemma_trimmed_same(line);
    lemma_trimmed_same(name);
    assert(line.subrange(1, line.len() - 1) == name);
}

/// An empty line changes nothing.
proof fn lemma_empty_line(section: Section, config: ConfigModel, rest: Seq<char>)
    ensures
        after_lines(section, config, lines(seq!['\n'] + rest)) == after_lines(
            section,
            config,
            lines(rest),
        ),
{
    let none = Seq::<char>::empty();
    assert(seq!['\n'] + rest == none + seq!['\n'] + rest);
    lemma_after_first_line(section, config, none, rest);
}

/// Nothing follows an empty text.
proof fn lemma_no_lines(section: Section, config: ConfigModel)
    ensures
        after_lines(section, config, lines(Seq::empty())) == Ok::<ConfigModel, ConfigFault>(config),
{
    let none = Seq::<char>::empty();
    assert(lines(none) == seq![none]);
    assert(seq![none].skip(1) == Seq::<Seq<char>>::empty());
    assert(trimmed(none) == none);
    reveal_with_fuel(after_lines, 2);
}

/// The three sections that a file has, with the entries of each.
spec fn entries_in(config: ConfigModel, section: Section) -> Map<Seq<char>, Seq<char>> {
    match section {
        Section::Games => config.games,
        Section::Managers => config.managers,
        _ => config.pipes,
    }
}

/// The entries of an ascending sequence join those that a section has.
proof fn lemma_with_entries(
    config: ConfigModel,
    section: Section,
    pairs: Seq<(Seq<char>, Seq<char>)>,
)
    requires
        section != Section::Other,
        ascending(pairs),
    ensures
        entries_in(with_entries(config, section, pairs), section) == entries_in(
            config,
            section,
        ).union_prefer_right(as_map(pairs)),
        forall|other: Section|
            #![trigger entries_in(with_entries(config, section, pairs), other)]
            other != section && other != Section::Other ==> entries_in(
                with_entries(config, section, pairs),
                other,
            ) == entries_in(config, other),
    decreases pairs.len(),
{
    let old_map = entries_in(config, section);
    if pairs.len() == 0 {
        assert(old_map.union_prefer_right(as_map(pairs)) =~= old_map);
    } else {
        let (key, value) = pairs[0];
        let more = pairs.skip(1);
        let next = with_entry(config, section, key, value);
        lemma_key_at(pairs, 0);
        lemma_skip_first(pairs);
        lemma_with_entries(next, section, more);
        assert(entries_in(next, section) == old_map.insert(key, value));
        assert(old_map.insert(key, value).union_prefer_right(as_map(pairs).remove(key))
            =~= old_map.union_prefer_right(as_map(pairs)));
        assert forall|other: Section|
            #![trigger entries_in(with_entries(config, section, pairs), other)]
            other != section && other != Section::Other implies entries_in(
            with_entries(config, section, pairs),
            other,
        ) == entries_in(config, other) by {
            assert(entries_in(with_entries(next, section, more), other) == entries_in(next, other));
        }
    }
}

/// Whether no key of a map has an equals sign.
pub open spec fn keys_without_equals(m: Map<Seq<char>, Seq<char>>) -> bool {
    forall|key: Seq<char>| #[trigger] m.contains_key(key) ==> !key.contains('=')
}

/// Whether no key of a configuration has an equals sign.
pub open spec fn without_equals(config: ConfigModel) -> bool {
    &&& keys_without_equals(config.games)
    &&& keys_without_equals(config.managers)
    &&& keys_without_equals(config.pipes)
}

/// A written section is read back.
proof fn lemma_section_read_back(
    before: Section,
    config: ConfigModel,
    name: Seq<char>,
    values: Map<Seq<char>, Seq<char>>,
    rest: Seq<char>,
)
    requires
        name == "games"@ || name == "managers"@ || name == "pipes"@,
        values.dom().finite(),
        keys_without_equals(values),
    ensures
        section_named(name) != Section::Other,
        after_lines(before, config, lines(section_text(name, values) + rest)) == after_lines(
            section_named(name),
            with_entries(config, section_named(name), listing(values)),
            lines(rest),
        ),
{
    let section = section_named(name);
    let pairs = listing(values);
    lemma_listing_exists(values);
    assert forall|i: int| 0 <= i < pairs.len() implies !(#[trigger] pairs[i]).0.contains('=') by {
        lemma_key_at(pairs, i);
    }
    let tail = seq!['\n'] + rest;
    let body = entries_text(pairs) + tail;
    assert(section_text(name, values) + rest == seq!['['] + name + seq![']', '\n'] + body);
    lemma_heading_read_back(before, config, name, body);
    lemma_entries_read_back(section, config, pairs, tail);
    lemma_empty_line(section, with_entries(config, section, pairs), rest);
}

/// A configuration whose keys have no equals sign is read back from the text that it is written as.
proof fn lemma_written_is_read(config: ConfigModel)
    requires
        finite(config),
        without_equals(config),
    ensures
        parsed(config_text(config)) == Ok::<ConfigModel, ConfigFault>(config),
{
    reveal_strlit("games");
    reveal_strlit("managers");
    reveal_strlit("pipes");
    assert("games"@.len() != "managers"@.len());
    assert("games"@[0] != "pipes"@[0]);
    let none = Seq::<char>::empty();
    let third = section_text("pipes"@, config.pipes);
    let second = section_text("managers"@, config.managers) + third;
    assert(config_text(config) == section_text("games"@, config.games) + second);
    assert(third + none == third);
    let c0 = empty_config();
    let c1 = with_entries(c0, Section::Games, listing(config.games));
    let c2 = with_entries(c1, Section::Managers, listing(config.managers));
    let c3 = with_entries(c2, Section::Pipes, listing(config.pipes));
    lemma_section_read_back(Section::Other, c0, "games"@, config.games, second);
    lemma_section_read_back(Section::Games, c1, "managers"@, config.managers, third);
    lemma_section_read_back(Section::Managers, c2, "pipes"@, config.pipes, none);
    lemma_no_lines(Section::Pipes, c3);
    lemma_listing_exists(config.games);
    lemma_listing_exists(config.managers);
    lemma_listing_exists(config.pipes);
    lemma_with_entries(c0, Section::Games, listing(config.games));
    lemma_with_entries(c1, Section::Managers, listing(config.managers));
    lemma_with_entries(c2, Section::Pipes, listing(config.pipes));
    assert(entries_in(c3, Section::Games) == entries_in(c1, Section::Games)) by {
        assert(entries_in(c2, Section::Games) == entries_in(c1, Section::Games));
    }
    assert(entries_in(c3, Section::Managers) == entries_in(c2, Section::Managers));
    assert(entries_in(c1, Section::Managers) == entries_in(c0, Section::Managers));
    assert(entries_in(c2, Section::Pipes) == entries_in(c0, Section::Pipes)) by {
        assert(entries_in(c1, Section::Pipes) == entries_in(c0, Section::Pipes));
    }
    let nothing = Map::<Seq<char>, Seq<char>>::empty();
    assert(nothing.union_prefer_right(config.games) =~= config.games);
    assert(nothing.union_prefer_right(config.managers) =~= config.managers);
    assert(nothing.union_prefer_right(config.pipes) =~= config.pipes);
    assert(c3 == config);
}

/// What trimming leaves is part of the text.
proof fn lemma_trimmed_within(s: Seq<char>, c: char)
    requires
        !s.contains(c),
    ensures
        !trimmed(s).contains(c),
{
    lemma_trimmed_start_within(s, c);
    lemma_trimmed_end_within(trimmed_start(s), c);
}

proof fn lemma_trimmed_start_within(s: Seq<char>, c: char)
    requires
        !s.contains(c),
    ensures
        !trimmed_start(s).contains(c),
    decreases s.len(),
{
    if s.len() > 0 && is_space(s[0]) {
        assert(!s.skip(1).contains(c)) by {
            assert forall|i: int| 0 <= i < s.len() - 1 implies s.skip(1)[i] != c by {
                assert(s[i + 1] != c);
            }
        }
        lemma_trimmed_start_within(s.skip(1), c);
    }
}

proof fn lemma_trimmed_end_within(s: Seq<char>, c: char)
    requires
        !s.contains(c),
    ensures
        !trimmed_end(s).contains(c),
    decreases s.len(),
{
    if s.len() > 0 && is_space(s.last()) {
        assert(!s.drop_last().contains(c)) by {
            assert forall|i: int| 0 <= i < s.len() - 1 implies s.drop_last()[i] != c by {
                assert(s[i] != c);
            }
        }
        lemma_trimmed_end_within(s.drop_last(), c);
    }
}

/// Unescaping brings in no equals sign.
proof fn lemma_unescaped_within(s: Seq<char>)
    requires
        !s.contains('='),
    ensures
        !unescaped(s).contains('='),
    decreases s.len(),
{
    if s.len() > 0 {
        assert(s[0] != '=');
        let n: int = if s[0] == '\\' { 2 } else { 1 };
        if n <= s.len() {
            let rest = s.skip(n);
            assert forall|i: int| 0 <= i < rest.len() implies rest[i] != '=' by {
                assert(s[i + n] != '=');
            }
            lemma_unescaped_within(rest);
            assert(s[n - 1] != '=');
            let first = if n == 2 { unescaped_char(s[1]) } else { s[0] };
            assert(unescaped(s) == seq![first] + unescaped(rest));
            assert forall|i: int| 0 <= i < unescaped(s).len() implies unescaped(s)[i] != '=' by {
                if i > 0 {
                    assert(unescaped(s)[i] == unescaped(rest)[i - 1]);
                }
            }
        }
    }
}

/// The key of an entry has no equals sign.
proof fn lemma_key_without_equals(line: Seq<char>)
    ensures
        pair_of(line) matches Some((key, _)) ==> !key.contains('='),
{
    let stops = seq!['='];
    lemma_span(line, stops);
    let n = span(line, stops) as int;
    if n < line.len() {
        let left = line.take(n);
        assert(stops[0] == '=');
        assert forall|i: int| 0 <= i < left.len() implies left[i] != '=' by {
            assert(!stops.contains(line[i]));
        }
        lemma_trimmed_within(left, '=');
        let t = trimmed(left);
        if t.len() >= 2 {
            let inner = t.subrange(1, t.len() - 1);
            assert forall|i: int| 0 <= i < inner.len() implies inner[i] != '=' by {
                assert(t[i + 1] != '=');
            }
            lemma_unescaped_within(inner);
        }
    }
}

/// No line brings a key with an equals sign.
proof fn lemma_lines_without_equals(section: Section, config: ConfigModel, rest: Seq<Seq<char>>)
    requires
        without_equals(config),
    ensures
        after_lines(section, config, rest) matches Ok(out) ==> without_equals(out),
    decreases rest.len(),
{
    if rest.len() > 0 {
        let line = trimmed(rest[0]);
        lemma_key_without_equals(line);
        if let Ok((next, changed)) = after_line(section, config, line) {
            assert(without_equals(changed));
            lemma_lines_without_equals(next, changed, rest.skip(1));
        }
    }
}

/// No configuration that was read has a key with an equals sign.
pub proof fn law_read_keys_without_equals(text: Seq<char>)
    ensures
        parsed(text) matches Ok(config) ==> without_equals(config),
{
    lemma_lines_without_equals(Section::Other, empty_config(), lines(text));
}

/// Reading the text that a configuration is written as gives that configuration back exactly
/// where none of its keys has an equals sign: the first equals sign of a line ends the key,
/// and no escape is written for it.
pub proof fn law_read_gives_back_what_was_written(config: ConfigModel)
    requires
        finite(config),
    ensures
        parsed(config_text(config)) == Ok::<ConfigModel, ConfigFault>(config) <==> without_equals(
            config,
        ),
{
    if without_equals(config) {
        lemma_written_is_read(config);
    }
    law_read_keys_without_equals(config_text(config));
}

/// No line brings infinitely many entries.
proof fn lemma_lines_finite(section: Section, config: ConfigModel, rest: Seq<Seq<char>>)
    requires
        finite(config),
    ensures
        after_lines(section, config, rest) matches Ok(out) ==> finite(out),
    decreases rest.len(),
{
    if rest.len() > 0 {
        if let Ok((next, changed)) = after_line(section, config, trimmed(rest[0])) {
            lemma_lines_finite(next, changed, rest.skip(1));
        }
    }
}

/// A configuration that was read from a text, whatever the text, is read back from the text that it
/// is written as.
pub proof fn law_rewriting_keeps_the_configuration(text: Seq<char>)
    ensures
        parsed(text) matches Ok(config) ==> parsed(config_text(config)) == Ok::<
            ConfigModel,
            ConfigFault,
        >(config),
{
    lemma_lines_finite(Section::Other, empty_config(), lines(text));
    law_read_keys_without_equals(text);
    if let Ok(config) = parsed(text) {
        law_read_gives_back_what_was_written(config);
    }
}

/// A change to a configuration that can be read back is there when the saved file is read again,
/// where the name that becomes a key has no equals sign and the file is not too large. A file that
/// is too large is refused.
pub proof fn law_changes_are_there_after_a_restart(
    config: ConfigModel,
    manager: Seq<char>,
    argument: Seq<char>,
)
    requires
        finite(config),
        without_equals(config),
    ensures
        !argument.contains('=') ==> survives(assigned(config, manager, argument)),
        !manager.contains('=') ==> survives(registered(config, manager, argument)),
        survives(deregistered(config, manager)),
        !manager.contains('=') ==> survives(piped(config, manager, argument)),
{
    law_operations_keep_keys_without_equals(config, manager, argument);
    law_read_gives_back_what_was_written(assigned(config, manager, argument));
    law_read_gives_back_what_was_written(registered(config, manager, argument));
    law_read_gives_back_what_was_written(deregistered(config, manager));
    law_read_gives_back_what_was_written(piped(config, manager, argument));
}

/// Whether a configuration is what its saved file says, or that file is refused for its size alone.
pub open spec fn survives(config: ConfigModel) -> bool {
    file_says(config_text(config)) == if fits(config_text(config)) {
        Ok::<ConfigModel, ConfigFault>(config)
    } else {
        Err(ConfigFault::TooLarge)
    }
}

/// A carriage return at the end of a line goes with the white space there.
proof fn lemma_trimmed_without_return(line: Seq<char>)
    ensures
        trimmed(line.push('\r')) == trimmed(line),
    decreases line.len(),
{
    let longer = line.push('\r');
    if line.len() > 0 && is_space(line[0]) {
        assert(longer.skip(1) == line.skip(1).push('\r'));
        lemma_trimmed_without_return(line.skip(1));
    } else if line.len() > 0 {
        assert(longer.drop_last() == line);
    } else {
        assert(longer.skip(1) == line);
    }
}

/// A line may end with a carriage return and a newline as well as with a newline.
pub proof fn law_either_line_ending(
    section: Section,
    config: ConfigModel,
    line: Seq<char>,
    rest: Seq<char>,
)
    requires
        !line.contains('\n'),
    ensures
        after_lines(section, config, lines(line + seq!['\r', '\n'] + rest)) == after_lines(
            section,
            config,
            lines(line + seq!['\n'] + rest),
        ),
{
    let longer = line.push('\r');
    assert forall|i: int| 0 <= i < longer.len() implies longer[i] != '\n' by {
        if i < line.len() {
            assert(longer[i] == line[i]);
        }
    }
    assert(line + seq!['\r', '\n'] + rest == longer + seq!['\n'] + rest);
    lemma_after_first_line(section, config, longer, rest);
    lemma_after_first_line(section, config, line, rest);
    lemma_trimmed_without_return(line);
}

/// A line that is blank or a comment says nothing.
pub proof fn law_comments_say_nothing(
    section: Section,
    config: ConfigModel,
    line: Seq<char>,
    rest: Seq<char>,
)
    requires
        !line.contains('\n'),
        is_blank(trimmed(line)),
    ensures
        after_lines(section, config, lines(line + seq!['\n'] + rest)) == after_lines(
            section,
            config,
            lines(rest),
        ),
{
    lemma_after_first_line(section, config, line, rest);
}

/// The text that stands for a missing file says nothing.
pub proof fn lemma_empty_text()
    ensures
        parsed("\n[games]\n\n[managers]\n\n[pipes]\n"@) == Ok::<ConfigModel, ConfigFault>(
            empty_config(),
        ),
{
    reveal_strlit("\n[games]\n\n[managers]\n\n[pipes]\n");
    reveal_strlit("games");
    reveal_strlit("managers");
    reveal_strlit("pipes");
    let none = Seq::<char>::empty();
    let line = seq!['\n'];
    let config = empty_config();
    let pipes = seq!['['] + "pipes"@ + seq![']', '\n'] + none;
    let managers = seq!['['] + "managers"@ + seq![']', '\n'] + (line + pipes);
    let games = seq!['['] + "games"@ + seq![']', '\n'] + (line + managers);
    assert("\n[games]\n\n[managers]\n\n[pipes]\n"@ =~= line + games);
    lemma_empty_line(Section::Other, config, games);
    lemma_heading_read_back(Section::Other, config, "games"@, line + managers);
    lemma_empty_line(section_named("games"@), config, managers);
    lemma_heading_read_back(section_named("games"@), config, "managers"@, line + pipes);
    lemma_empty_line(section_named("managers"@), config, pipes);
    lemma_heading_read_back(section_named("managers"@), config, "pipes"@, none);
    lemma_no_lines(section_named("pipes"@), config);
}

/// A game resolves to the manager that was last assigned to it.
pub proof fn law_assigned_game_resolves(config: ConfigModel, manager: Seq<char>, game: Seq<char>)
    ensures
        manager_of(assigned(config, manager, game), game) == Some(manager),
{
}

/// Assigning a game leaves every other game with the manager that it had, unless the game is `_`.
pub proof fn law_assigning_leaves_other_games(
    config: ConfigModel,
    manager: Seq<char>,
    game: Seq<char>,
    other: Seq<char>,
)
    requires
        other != game,
        game != "_"@,
    ensures
        manager_of(assigned(config, manager, game), other) == manager_of(config, other),
{
}

/// The manager assigned to `_` handles exactly the games that have none of their own.
pub proof fn law_fallback_handles_the_rest(
    config: ConfigModel,
    manager: Seq<char>,
    game: Seq<char>,
)
    ensures
        !config.games.contains_key(game) ==> manager_of(assigned(config, manager, "_"@), game)
            == Some(manager),
        config.games.contains_key(game) && game != "_"@ ==> manager_of(
            assigned(config, manager, "_"@),
            game,
        ) == manager_of(config, game),
{
}

/// Whether every pipe belongs to a manager that is registered and has a name that is allowed.
pub open spec fn pipes_in_order(config: ConfigModel) -> bool {
    forall|manager: Seq<char>| #[trigger]
        config.pipes.contains_key(manager) ==> config.managers.contains_key(manager)
            && valid_pipe_name(config.pipes[manager])
}

/// Every operation keeps the pipes in order, and the empty configuration has them so.
pub proof fn law_operations_keep_pipes_in_order(
    config: ConfigModel,
    manager: Seq<char>,
    argument: Seq<char>,
)
    requires
        pipes_in_order(config),
    ensures
        pipes_in_order(empty_config()),
        pipes_in_order(assigned(config, manager, argument)),
        pipes_in_order(registered(config, manager, argument)),
        pipes_in_order(deregistered(config, manager)),
        pipe_refusal(config, manager, argument) is None ==> pipes_in_order(
            piped(config, manager, argument),
        ),
{
}

/// Every operation keeps the keys free of equals signs, given names without one, so that the text
/// that is then written is read back.
pub proof fn law_operations_keep_keys_without_equals(
    config: ConfigModel,
    manager: Seq<char>,
    argument: Seq<char>,
)
    requires
        without_equals(config),
    ensures
        without_equals(empty_config()),
        !argument.contains('=') ==> without_equals(assigned(config, manager, argument)),
        !manager.contains('=') ==> without_equals(registered(config, manager, argument)),
        without_equals(deregistered(config, manager)),
        !manager.contains('=') ==> without_equals(piped(config, manager, argument)),
{
}

/// A manager that was deregistered has neither a command nor a pipe, cannot get a pipe, and every
/// other manager and every game is as it was.
pub proof fn law_deregistered_manager_is_gone(
    config: ConfigModel,
    manager: Seq<char>,
    other: Seq<char>,
    pipe: Seq<char>,
)
    ensures
        ({
            let after = deregistered(config, manager);
            &&& !after.managers.contains_key(manager)
            &&& !after.pipes.contains_key(manager)
            &&& pipe_refusal(after, manager, pipe) is Some
            &&& after.games == config.games
            &&& other != manager ==> {
                &&& after.managers.contains_key(other) == config.managers.contains_key(other)
                &&& after.managers[other] == config.managers[other]
                &&& after.pipes.contains_key(other) == config.pipes.contains_key(other)
                &&& after.pipes[other] == config.pipes[other]
            }
        }),
{
    let after = deregistered(config, manager);
    if other != manager {
        assert(config.managers.contains_key(other) ==> after.managers[other]
            == config.managers[other]);
    }
}

/// Deregistering undoes a registration of a manager that was not there.
pub proof fn law_deregister_undoes_register(
    config: ConfigModel,
    manager: Seq<char>,
    command: Seq<char>,
    pipe: Seq<char>,
)
    requires
        !config.managers.contains_key(manager),
        !config.pipes.contains_key(manager),
    ensures
        deregistered(registered(config, manager, command), manager) == config,
        deregistered(piped(registered(config, manager, command), manager, pipe), manager) == config,
{
    assert(config.managers.insert(manager, command).remove(manager) =~= config.managers);
    assert(config.pipes.remove(manager) =~= config.pipes);
    assert(config.pipes.insert(manager, pipe).remove(manager) =~= config.pipes);
}

/// The configuration file is replaced only when the temporary file was created and the whole text
/// written to it.
pub proof fn law_replace_comes_last(step: SaveStep)
    ensures
        save_step_after(step) == SaveStep::Write ==> step == SaveStep::Create,
        save_step_after(step) == SaveStep::Replace ==> step == SaveStep::Write,
        save_step_after(step) == SaveStep::Saved ==> step == SaveStep::Replace || step
            == SaveStep::Saved,
        save_step_after(save_step_after(save_step_after(SaveStep::Create))) == SaveStep::Saved,
{
}

/// After registering, the manager has the new command, whether or not it had one before; every
/// other manager, all games and all pipes are as they were.
pub proof fn law_registering_sets_the_command(
    config: ConfigModel,
    manager: Seq<char>,
    command: Seq<char>,
    other: Seq<char>,
)
    ensures
        registered(config, manager, command).managers.contains_key(manager),
        registered(config, manager, command).managers[manager] == command,
        other != manager ==> {
            &&& registered(config, manager, command).managers.contains_key(other)
                <==> config.managers.contains_key(other)
            &&& config.managers.contains_key(other) ==> registered(
                config,
                manager,
                command,
            ).managers[other] == config.managers[other]
        },
        registered(config, manager, command).games == config.games,
        registered(config, manager, command).pipes == config.pipes,
{
}

/// Of two registrations of a manager the later one counts.
pub proof fn law_later_registration_counts(
    config: ConfigModel,
    manager: Seq<char>,
    first: Seq<char>,
    second: Seq<char>,
)
    ensures
        registered(registered(config, manager, first), manager, second) == registered(
            config,
            manager,
            second,
        ),
{
    assert(config.managers.insert(manager, first).insert(manager, second)
        =~= config.managers.insert(manager, second));
}

/// After assigning, the game has the new manager, whether or not it had one before and whether or
/// not the manager is registered; every other game, all managers and all pipes are as they were.
pub proof fn law_assigning_sets_the_manager(
    config: ConfigModel,
    manager: Seq<char>,
    game: Seq<char>,
    other: Seq<char>,
)
    ensures
        assigned(config, manager, game).games.contains_key(game),
        assigned(config, manager, game).games[game] == manager,
        other != game ==> {
            &&& assigned(config, manager, game).games.contains_key(other)
                <==> config.games.contains_key(other)
            &&& config.games.contains_key(other) ==> assigned(config, manager, game).games[other]
                == config.games[other]
        },
        assigned(config, manager, game).managers == config.managers,
        assigned(config, manager, game).pipes == config.pipes,
{
}

/// After deregistering, the manager has neither a command nor a pipe; every other manager keeps
/// both, and all games keep their manager.
pub proof fn law_deregistering_takes_away_one_manager(
    config: ConfigModel,
    manager: Seq<char>,
    other: Seq<char>,
)
    ensures
        !deregistered(config, manager).managers.contains_key(manager),
        !deregistered(config, manager).pipes.contains_key(manager),
        other != manager ==> {
            &&& deregistered(config, manager).managers.contains_key(other)
                <==> config.managers.contains_key(other)
            &&& config.managers.contains_key(other) ==> deregistered(
                config,
                manager,
            ).managers[other] == config.managers[other]
            &&& deregistered(config, manager).pipes.contains_key(other)
                <==> config.pipes.contains_key(other)
            &&& config.pipes.contains_key(other) ==> deregistered(config, manager).pipes[other]
                == config.pipes[other]
        },
        deregistered(config, manager).games == config.games,
{
}

/// After registering a pipe, the manager has the new pipe, whether or not it had one before; every
/// other pipe, all managers and all games are as they were.
pub proof fn law_registering_a_pipe_sets_it(
    config: ConfigModel,
    manager: Seq<char>,
    pipe: Seq<char>,
    other: Seq<char>,
)
    ensures
        piped(config, manager, pipe).pipes.contains_key(manager),
        piped(config, manager, pipe).pipes[manager] == pipe,
        other != manager ==> {
            &&& piped(config, manager, pipe).pipes.contains_key(other)
                <==> config.pipes.contains_key(other)
            &&& config.pipes.contains_key(other) ==> piped(config, manager, pipe).pipes[other]
                == config.pipes[other]
        },
        piped(config, manager, pipe).managers == config.managers,
        piped(config, manager, pipe).games == config.games,
{
}

/// Whether a text has 1 to 128 characters, each of them a letter or a digit of ASCII, a full stop,
/// an underscore or a hyphen.
pub open spec fn may_name_a_pipe(pipe: Seq<char>) -> bool {
    &&& pipe.len() != 0
    &&& pipe.len() < 129
    &&& forall|i: int|
        0 <= i < pipe.len() ==> {
            ||| 'A' <= #[trigger] pipe[i] <= 'Z'
            ||| 'a' <= pipe[i] <= 'z'
            ||| '0' <= pipe[i] <= '9'
            ||| pipe[i] == '.'
            ||| pipe[i] == '_'
            ||| pipe[i] == '-'
        }
}

/// A pipe is refused for its name where that cannot name a pipe; else for its manager where that
/// is not registered; else not at all.
pub proof fn law_which_pipes_are_refused(
    config: ConfigModel,
    manager: Seq<char>,
    pipe: Seq<char>,
)
    ensures
        !may_name_a_pipe(pipe) ==> pipe_refusal(config, manager, pipe) == Some(
            "Pipe name may only contain A-Z, a-z, 0-9, '.', '_' or '-' and must be 1-128 characters"@,
        ),
        may_name_a_pipe(pipe) && !config.managers.contains_key(manager) ==> pipe_refusal(
            config,
            manager,
            pipe,
        ) == Some("Manager "@ + manager + " is not registered"@),
        may_name_a_pipe(pipe) && config.managers.contains_key(manager) ==> pipe_refusal(
            config,
            manager,
            pipe,
        ) is None,
        valid_pipe_name(pipe) <==> may_name_a_pipe(pipe),
{
    if may_name_a_pipe(pipe) {
        assert forall|i: int| 0 <= i < pipe.len() implies pipe_char(#[trigger] pipe[i]) by {}
    }
    if valid_pipe_name(pipe) {
        assert forall|i: int| 0 <= i < pipe.len() implies ({
            ||| 'A' <= #[trigger] pipe[i] <= 'Z'
            ||| 'a' <= pipe[i] <= 'z'
            ||| '0' <= pipe[i] <= '9'
            ||| pipe[i] == '.'
            ||| pipe[i] == '_'
            ||| pipe[i] == '-'
        }) by {
            assert(pipe_char(pipe[i]));
        }
    }
}

/// A game goes to its own manager; where it has none, to the manager of the game `_`; where that
/// has none either, to nobody.
pub proof fn law_who_handles_a_game(config: ConfigModel, game: Seq<char>)
    ensures
        config.games.contains_key(game) ==> manager_of(config, game) == Some(config.games[game]),
        !config.games.contains_key(game) && config.games.contains_key("_"@) ==> manager_of(
            config,
            game,
        ) == Some(config.games["_"@]),
        !config.games.contains_key(game) && !config.games.contains_key("_"@) ==> manager_of(
            config,
            game,
        ) is None,
{
}

} // verus!
