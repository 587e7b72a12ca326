//! The configuration: which manager handles which game, and how each manager is reached.

use crate::config_laws::lemma_empty_text;
use crate::entries::{lemma_listing_len, listing, Entries};
use crate::pipe::{is_valid_pipe_name, valid_pipe_name};
use crate::text::{
    cut, lines, same_text, split_lines, split_once, texts, to_chars, trim, trimmed,
};
use vstd::prelude::*;
use vstd::string::*;
use vstd::utf8::encode_utf8;

verus! {

/// The size in bytes up to which a configuration file is read.
pub const MAX_CONFIG_BYTES: u64 = 1_048_576;

/// What a configuration says.
#[verifier::ext_equal]
pub struct ConfigModel {
    /// The manager of each game; the game `_` stands for all others.
    pub games: Map<Seq<char>, Seq<char>>,
    /// The command of each manager.
    pub managers: Map<Seq<char>, Seq<char>>,
    /// The pipe of each manager that has one.
    pub pipes: Map<Seq<char>, Seq<char>>,
}

/// The configuration that says nothing.
pub open spec fn empty_config() -> ConfigModel {
    ConfigModel { games: Map::empty(), managers: Map::empty(), pipes: Map::empty() }
}

/// Whether a configuration has finitely many entries, as every `Config` has.
pub open spec fn finite(config: ConfigModel) -> bool {
    &&& config.games.dom().finite()
    &&& config.managers.dom().finite()
    &&& config.pipes.dom().finite()
}

/// Which manager handles which game, and how each manager is reached.
#[derive(Debug)]
pub struct Config {
    /// The manager of each game; the game `_` stands for all others.
    pub games: Entries,
    /// The command of each manager.
    pub managers: Entries,
    /// The pipe of each manager that has one.
    pub pipes: Entries,
}

impl View for Config {
    type V = ConfigModel;

    open spec fn view(&self) -> ConfigModel {
        ConfigModel { games: self.games@, managers: self.managers@, pipes: self.pipes@ }
    }
}

/// Why there is no configuration.
#[derive(Debug)]
pub enum ConfigError {
    /// A line that is no entry, no section and no comment.
    InvalidLine(String),
    /// An entry before the first section, or in one that is not known.
    OutsideSection,
    /// The file is larger than `MAX_CONFIG_BYTES`.
    TooLarge,
    /// The file is there and could not be read.
    Unreadable(String),
}

/// What an error says.
pub enum ConfigFault {
    InvalidLine(Seq<char>),
    OutsideSection,
    TooLarge,
    Unreadable(Seq<char>),
}

impl View for ConfigError {
    type V = ConfigFault;

    open spec fn view(&self) -> ConfigFault {
        match *self {
            ConfigError::InvalidLine(line) => ConfigFault::InvalidLine(line@),
            ConfigError::OutsideSection => ConfigFault::OutsideSection,
            ConfigError::TooLarge => ConfigFault::TooLarge,
            ConfigError::Unreadable(reason) => ConfigFault::Unreadable(reason@),
        }
    }
}

/// The character that a backslash and `c` stand for.
pub open spec fn unescaped_char(c: char) -> char {
    if c == 'n' {
        '\n'
    } else if c == 'r' {
        '\r'
    } else if c == 't' {
        '\t'
    } else {
        c
    }
}

/// The text that an escaped text stands for. A backslash at the end stands for nothing.
pub open spec fn unescaped(s: Seq<char>) -> Seq<char>
    decreases s.len(),
{
    if s.len() == 0 {
        s
    } else if s[0] != '\\' {
        seq![s[0]] + unescaped(s.skip(1))
    } else if s.len() == 1 {
        Seq::empty()
    } else {
        seq![unescaped_char(s[1])] + unescaped(s.skip(2))
    }
}

/// Replaces each escape in a text by what it stands for.
pub fn unescape_quoted(input: &str) -> (out: String)
    ensures
        out@ == unescaped(input@),
{
    let chars = to_chars(input);
    let mut out: String = String::new();
    let mut escape = false;
    let mut i: usize = 0;
    let ghost s = input@;
    assert(s.skip(0) == s);
    while i < chars.len()
        invariant
            i <= chars@.len(),
            chars@ == s,
            escape ==> i > 0 && s[i - 1] == '\\',
            out@ + unescaped(s.skip(if escape { i - 1 } else { i as int })) == unescaped(s),
        decreases chars@.len() - i,
    {
        let c = chars[i];
        let ghost done = out@;
        let ghost rest = s.skip(if escape { i - 1 } else { i as int });
        if escape {
            let mapped = match c {
                'n' => '\n',
                'r' => '\r',
                't' => '\t',
                other => other,
            };
            out.push(mapped);
            escape = false;
            assert(rest.skip(2) == s.skip(i + 1));
            assert(done + (seq![mapped] + unescaped(s.skip(i + 1))) == out@ + unescaped(
                s.skip(i + 1),
            ));
        } else if c == '\\' {
            escape = true;
        } else {
            out.push(c);
            assert(rest.skip(1) == s.skip(i + 1));
            assert(done + (seq![c] + unescaped(s.skip(i + 1))) == out@ + unescaped(s.skip(i + 1)));
        }
        i += 1;
    }
    out
}

/// What one side of an entry says: the text between the quotes, its escapes replaced, where there
/// are quotes around it; the text itself where there are not.
pub open spec fn value_of(s: Seq<char>) -> Seq<char> {
    let t = trimmed(s);
    if t.len() >= 2 && t[0] == '"' && t.last() == '"' {
        unescaped(t.subrange(1, t.len() - 1))
    } else {
        t
    }
}

/// Reads one side of an entry.
pub fn parse_value(input: &str) -> (out: String)
    ensures
        out@ == value_of(input@),
{
    let t = trim(input);
    let len = t.unicode_len();
    if len >= 2 && t.get_char(0) == '"' && t.get_char(len - 1) == '"' {
        unescape_quoted(t.substring_char(1, len - 1))
    } else {
        t.to_owned()
    }
}

/// The key and the value of an entry, which the first equals sign separates.
pub open spec fn pair_of(line: Seq<char>) -> Option<(Seq<char>, Seq<char>)> {
    match cut(line, '=') {
        Some((key, value)) => Some((value_of(key), value_of(value))),
        None => None,
    }
}

/// Reads an entry.
pub fn parse_key_value(line: &str) -> (out: Option<(String, String)>)
    ensures
        match (out, pair_of(line@)) {
            (Some((key, value)), Some((k, v))) => key@ == k && value@ == v,
            (None, None) => true,
            _ => false,
        },
{
    match split_once(line, '=') {
        Some((key, value)) => Some((parse_value(key), parse_value(value))),
        None => None,
    }
}

/// The section of the file that a line belongs to.
#[derive(Clone, Copy, PartialEq, Eq, Structural, Debug)]
pub enum Section {
    /// No section yet, or one that is not known.
    Other,
    Games,
    Managers,
    Pipes,
}

/// The section with the given name.
pub open spec fn section_named(name: Seq<char>) -> Section {
    if name == "games"@ {
        Section::Games
    } else if name == "managers"@ {
        Section::Managers
    } else if name == "pipes"@ {
        Section::Pipes
    } else {
        Section::Other
    }
}

/// Finds the section with the given name.
pub fn find_section(name: &str) -> (section: Section)
    ensures
        section == section_named(name@),
{
    if same_text(name, "games") {
        Section::Games
    } else if same_text(name, "managers") {
        Section::Managers
    } else if same_text(name, "pipes") {
        Section::Pipes
    } else {
        Section::Other
    }
}

/// Whether a line, without the white space around it, is blank or a comment.
pub open spec fn is_blank(line: Seq<char>) -> bool {
    line.len() == 0 || line[0] == '#' || line[0] == ';'
}

/// Whether a line, without the white space around it, opens a section.
pub open spec fn is_heading(line: Seq<char>) -> bool {
    line.len() > 0 && line[0] == '[' && line.last() == ']'
}

/// The configuration with one more entry in a section that is known.
pub open spec fn with_entry(
    config: ConfigModel,
    section: Section,
    key: Seq<char>,
    value: Seq<char>,
) -> ConfigModel {
    match section {
        Section::Games => ConfigModel { games: config.games.insert(key, value), ..config },
        Section::Managers => ConfigModel { managers: config.managers.insert(key, value), ..config },
        Section::Pipes => ConfigModel { pipes: config.pipes.insert(key, value), ..config },
        Section::Other => config,
    }
}

/// The section and the configuration after one more line, without the white space around it.
pub open spec fn after_line(section: Section, config: ConfigModel, line: Seq<char>) -> Result<
    (Section, ConfigModel),
    ConfigFault,
> {
    if is_blank(line) {
        Ok((section, config))
    } else if is_heading(line) {
        Ok((section_named(trimmed(line.subrange(1, line.len() - 1))), config))
    } else {
        match pair_of(line) {
            None => Err(ConfigFault::InvalidLine(line)),
            Some((key, value)) => if section == Section::Other {
                Err(ConfigFault::OutsideSection)
            } else {
                Ok((section, with_entry(config, section, key, value)))
            },
        }
    }
}

/// The configuration after all of the given lines, up to the first one that is wrong.
pub open spec fn after_lines(section: Section, config: ConfigModel, rest: Seq<Seq<char>>) -> Result<
    ConfigModel,
    ConfigFault,
>
    decreases rest.len(),
{
    if rest.len() == 0 {
        Ok(config)
    } else {
        match after_line(section, config, trimmed(rest[0])) {
            Ok((next, changed)) => after_lines(next, changed, rest.skip(1)),
            Err(fault) => Err(fault),
        }
    }
}

/// The configuration that a text describes.
pub open spec fn parsed(text: Seq<char>) -> Result<ConfigModel, ConfigFault> {
    after_lines(Section::Other, empty_config(), lines(text))
}

/// Whether a text, in UTF-8, is small enough for a configuration file.
pub open spec fn fits(text: Seq<char>) -> bool {
    encode_utf8(text).len() <= MAX_CONFIG_BYTES
}

/// The configuration in a file with the given text: one that is too large is not read.
pub open spec fn file_says(text: Seq<char>) -> Result<ConfigModel, ConfigFault> {
    if fits(text) {
        parsed(text)
    } else {
        Err(ConfigFault::TooLarge)
    }
}

/// Whether a result is the one that the model gives.
pub open spec fn agrees(
    out: Result<Config, ConfigError>,
    model: Result<ConfigModel, ConfigFault>,
) -> bool {
    match (out, model) {
        (Ok(config), Ok(m)) => config@ == m,
        (Err(error), Err(fault)) => error@ == fault,
        _ => false,
    }
}

/// Reads a configuration. A carriage return before a newline goes with the white space
/// around the line.
pub fn parse_config(config_data: &str) -> (out: Result<Config, ConfigError>)
    ensures
        agrees(out, parsed(config_data@)),
        out matches Ok(config) ==> parsed(config_data@) matches Ok(m) && config.games@ == m.games
            && config.managers@ == m.managers && config.pipes@ == m.pipes,
        out matches Err(error) ==> match error {
            ConfigError::InvalidLine(line) => parsed(config_data@) == Err::<
                ConfigModel,
                ConfigFault,
            >(ConfigFault::InvalidLine(line@)),
            ConfigError::OutsideSection => parsed(config_data@) == Err::<ConfigModel, ConfigFault>(
                ConfigFault::OutsideSection,
            ),
            _ => false,
        },
{
    let mut config = Config {
        games: Entries::new(),
        managers: Entries::new(),
        pipes: Entries::new(),
    };
    let mut current = Section::Other;
    let all = split_lines(config_data);
    let mut i: usize = 0;
    assert(lines(config_data@).skip(0) == lines(config_data@));
    while i < all.len()
        invariant
            i <= all@.len(),
            texts(all@) == lines(config_data@),
            after_lines(current, config@, lines(config_data@).skip(i as int)) == parsed(
                config_data@,
            ),
        decreases all@.len() - i,
    {
        let ghost rest = lines(config_data@).skip(i as int);
        assert(texts(all@)[i as int] == all@[i as int]@);
        assert(rest[0] == all@[i as int]@);
        assert(rest.skip(1) == lines(config_data@).skip(i + 1));
        let line = trim(all[i].as_str());
        i += 1;
        let len = line.unicode_len();
        if len == 0 || line.get_char(0) == '#' || line.get_char(0) == ';' {
            continue;
        }
        if line.get_char(0) == '[' && line.get_char(len - 1) == ']' {
            current = find_section(trim(line.substring_char(1, len - 1)));
            continue;
        }
        match parse_key_value(line) {
            None => {
                return Err(ConfigError::InvalidLine(line.to_owned()));
            },
            Some((key, value)) => match current {
                Section::Games => {
                    config.games.insert(key, value);
                },
                Section::Managers => {
                    config.managers.insert(key, value);
                },
                Section::Pipes => {
                    config.pipes.insert(key, value);
                },
                Section::Other => {
                    return Err(ConfigError::OutsideSection);
                },
            },
        }
    }
    Ok(config)
}

/// How a character is written between quotes.
pub open spec fn escaped_char(c: char) -> Seq<char> {
    if c == '\\' {
        seq!['\\', '\\']
    } else if c == '"' {
        seq!['\\', '"']
    } else if c == '\n' {
        seq!['\\', 'n']
    } else if c == '\r' {
        seq!['\\', 'r']
    } else if c == '\t' {
        seq!['\\', 't']
    } else {
        seq![c]
    }
}

/// How a text is written between quotes.
pub open spec fn escaped(s: Seq<char>) -> Seq<char>
    decreases s.len(),
{
    if s.len() == 0 {
        s
    } else {
        escaped_char(s[0]) + escaped(s.skip(1))
    }
}

/// Escapes what cannot stand between quotes.
pub fn escape_value(value: &str) -> (out: String)
    ensures
        out@ == escaped(value@),
{
    let chars = to_chars(value);
    let mut out: String = String::new();
    let mut i: usize = 0;
    let ghost s = value@;
    assert(s.skip(0) == s);
    while i < chars.len()
        invariant
            i <= chars@.len(),
            chars@ == s,
            out@ + escaped(s.skip(i as int)) == escaped(s),
        decreases chars@.len() - i,
    {
        let c = chars[i];
        let ghost done = out@;
        match c {
            '\\' => {
                out.push('\\');
                out.push('\\');
            },
            '"' => {
                out.push('\\');
                out.push('"');
            },
            '\n' => {
                out.push('\\');
                out.push('n');
            },
            '\r' => {
                out.push('\\');
                out.push('r');
            },
            '\t' => {
                out.push('\\');
                out.push('t');
            },
            other => {
                out.push(other);
            },
        }
        assert(out@ == done + escaped_char(c));
        assert(s.skip(i as int).skip(1) == s.skip(i + 1));
        assert(done + (escaped_char(c) + escaped(s.skip(i + 1))) == out@ + escaped(s.skip(i + 1)));
        i += 1;
    }
    out
}

/// A text between quotes.
pub open spec fn quoted(s: Seq<char>) -> Seq<char> {
    seq!['"'] + escaped(s) + seq!['"']
}

/// The line of an entry, without its newline.
pub open spec fn entry_line(key: Seq<char>, value: Seq<char>) -> Seq<char> {
    quoted(key) + seq![' ', '=', ' '] + quoted(value)
}

/// The lines of the given entries.
pub open spec fn entries_text(pairs: Seq<(Seq<char>, Seq<char>)>) -> Seq<char>
    decreases pairs.len(),
{
    if pairs.len() == 0 {
        Seq::empty()
    } else {
        entry_line(pairs[0].0, pairs[0].1) + seq!['\n'] + entries_text(pairs.skip(1))
    }
}

/// A section: its heading, its entries in the order of their keys, an empty line.
pub open spec fn section_text(name: Seq<char>, values: Map<Seq<char>, Seq<char>>) -> Seq<char> {
    seq!['['] + name + seq![']', '\n'] + entries_text(listing(values)) + seq!['\n']
}

/// The text of a configuration.
pub open spec fn config_text(config: ConfigModel) -> Seq<char> {
    section_text("games"@, config.games) + section_text("managers"@, config.managers)
        + section_text("pipes"@, config.pipes)
}

/// Writes a text between quotes at the end of the output.
fn append_quoted(output: &mut String, text: &str)
    ensures
        final(output)@ == old(output)@ + quoted(text@),
{
    let ghost start = output@;
    output.push('"');
    output.append(escape_value(text).as_str());
    output.push('"');
    assert(output@ == start + quoted(text@));
}

/// Writes the line of an entry at the end of the output.
fn append_entry(output: &mut String, key: &str, value: &str)
    ensures
        final(output)@ == old(output)@ + (entry_line(key@, value@) + seq!['\n']),
{
    let ghost start = output@;
    append_quoted(output, key);
    output.append(" = ");
    append_quoted(output, value);
    output.push('\n');
    proof {
        reveal_strlit(" = ");
        assert(" = "@ == seq![' ', '=', ' ']);
        assert(output@ == start + (entry_line(key@, value@) + seq!['\n']));
    }
}

/// Writes a section at the end of the output.
pub fn append_section(output: &mut String, section_name: &str, values: &Entries)
    ensures
        final(output)@ == old(output)@ + section_text(section_name@, values@),
        values@.dom().finite(),
{
    let ghost start = output@;
    let ghost pairs = listing(values@);
    output.push('[');
    output.append(section_name);
    output.push(']');
    output.push('\n');
    let ghost head = output@;
    assert(head == start + (seq!['['] + section_name@ + seq![']', '\n']));
    let n = values.len();
    let mut i: usize = 0;
    assert(pairs.skip(0) == pairs);
    proof {
        lemma_listing_len(values@);
    }
    while i < n
        invariant
            i <= n,
            n == values@.len(),
            n == pairs.len(),
            pairs == listing(values@),
            output@ + entries_text(pairs.skip(i as int)) == head + entries_text(pairs),
        decreases n - i,
    {
        let ghost done = output@;
        let (key, value) = values.at(i);
        append_entry(output, key.as_str(), value.as_str());
        proof {
            let line = entry_line(key@, value@) + seq!['\n'];
            let rest = entries_text(pairs.skip(i + 1));
            assert(pairs.skip(i as int).skip(1) == pairs.skip(i + 1));
            assert(done + (line + rest) == output@ + rest);
        }
        i += 1;
    }
    proof {
        assert(pairs.skip(i as int) == Seq::<(Seq<char>, Seq<char>)>::empty());
        assert(output@ == head + entries_text(pairs));
    }
    output.push('\n');
    assert(output@ == start + section_text(section_name@, values@));
}

/// Writes a configuration as text.
pub fn to_config_text(config: &Config) -> (output: String)
    ensures
        output@ == config_text(config@),
        finite(config@),
{
    let mut output: String = String::new();
    append_section(&mut output, "games", &config.games);
    append_section(&mut output, "managers", &config.managers);
    append_section(&mut output, "pipes", &config.pipes);
    output
}

/// The name of the file that holds the configuration, in the directory of the program.
pub fn config_file_name() -> (name: &'static str)
    ensures
        name@ == "config.toml"@,
{
    "config.toml"
}

/// What came of reading the file.
#[derive(Debug)]
pub enum FileText {
    /// Its text.
    Read(String),
    /// There is no file.
    NotFound,
    /// Another failure, in words.
    Failed(String),
}

/// What a file that is not there is taken to hold.
pub fn empty_config_text() -> (text: &'static str)
    ensures
        text@ == "\n[games]\n\n[managers]\n\n[pipes]\n"@,
        parsed(text@) == Ok::<ConfigModel, ConfigFault>(empty_config()),
{
    proof {
        lemma_empty_text();
    }
    "\n[games]\n\n[managers]\n\n[pipes]\n"
}

/// The files and the text of a configuration that is to be saved.
#[derive(Debug)]
pub struct SavePlan {
    /// The file that holds the configuration.
    pub file: String,
    /// The file that the text is written to first.
    pub temp_file: String,
    /// The text.
    pub text: String,
}

/// The next thing to do in order to save a configuration.
#[derive(Clone, Copy, PartialEq, Eq, Structural, Debug)]
pub enum SaveStep {
    /// Create the temporary file.
    Create,
    /// Write the whole text to it.
    Write,
    /// Rename it to the configuration file.
    Replace,
    /// Nothing: the configuration is saved.
    Saved,
}

/// The step that follows one that succeeded.
pub open spec fn save_step_after(step: SaveStep) -> SaveStep {
    match step {
        SaveStep::Create => SaveStep::Write,
        SaveStep::Write => SaveStep::Replace,
        SaveStep::Replace => SaveStep::Saved,
        SaveStep::Saved => SaveStep::Saved,
    }
}

/// What the message for a step that failed begins with.
pub open spec fn save_failure(step: SaveStep) -> Seq<char> {
    match step {
        SaveStep::Create => "Failed to create temp config file: "@,
        SaveStep::Write => "Failed to write config file: "@,
        _ => "Failed to apply config file changes: "@,
    }
}

/// Goes on to the next step after one that succeeded; gives up, with a message, after one
/// that failed.
pub fn next_save_step(step: SaveStep, outcome: Result<(), String>) -> (next: Result<
    SaveStep,
    String,
>)
    requires
        step != SaveStep::Saved,
    ensures
        match (outcome, next) {
            (Ok(_), Ok(s)) => s == save_step_after(step),
            (Err(reason), Err(message)) => message@ == save_failure(step) + reason@,
            _ => false,
        },
        next is Ok <==> outcome is Ok,
        outcome is Ok && step == SaveStep::Create ==> next->Ok_0 == SaveStep::Write,
        outcome is Ok && step == SaveStep::Write ==> next->Ok_0 == SaveStep::Replace,
        outcome is Ok && step == SaveStep::Replace ==> next->Ok_0 == SaveStep::Saved,
        outcome matches Err(reason) ==> next->Err_0@ == (match step {
            SaveStep::Create => "Failed to create temp config file: "@,
            SaveStep::Write => "Failed to write config file: "@,
            _ => "Failed to apply config file changes: "@,
        }) + reason@,
{
    match outcome {
        Ok(_) => Ok(
            match step {
                SaveStep::Create => SaveStep::Write,
                SaveStep::Write => SaveStep::Replace,
                SaveStep::Replace => SaveStep::Saved,
                SaveStep::Saved => SaveStep::Saved,
            },
        ),
        Err(reason) => {
            let mut message: String = match step {
                SaveStep::Create => "Failed to create temp config file: ".to_owned(),
                SaveStep::Write => "Failed to write config file: ".to_owned(),
                _ => "Failed to apply config file changes: ".to_owned(),
            };
            message.append(reason.as_str());
            Err(message)
        },
    }
}

/// The configuration in which `manager` handles `game`.
pub open spec fn assigned(
    config: ConfigModel,
    manager: Seq<char>,
    game: Seq<char>,
) -> ConfigModel {
    ConfigModel { games: config.games.insert(game, manager), ..config }
}

/// The configuration in which `manager` is started by `command`.
pub open spec fn registered(
    config: ConfigModel,
    manager: Seq<char>,
    command: Seq<char>,
) -> ConfigModel {
    ConfigModel { managers: config.managers.insert(manager, command), ..config }
}

/// The configuration without `manager` and its pipe. Games keep it as their manager.
pub open spec fn deregistered(config: ConfigModel, manager: Seq<char>) -> ConfigModel {
    ConfigModel {
        managers: config.managers.remove(manager),
        pipes: config.pipes.remove(manager),
        ..config
    }
}

/// The configuration in which `manager` takes links through `pipe`.
pub open spec fn piped(config: ConfigModel, manager: Seq<char>, pipe: Seq<char>) -> ConfigModel {
    ConfigModel { pipes: config.pipes.insert(manager, pipe), ..config }
}

/// Why a pipe cannot be registered, where it cannot.
pub open spec fn pipe_refusal(
    config: ConfigModel,
    manager: Seq<char>,
    pipe: Seq<char>,
) -> Option<Seq<char>> {
    if !valid_pipe_name(pipe) {
        Some(
            "Pipe name may only contain A-Z, a-z, 0-9, '.', '_' or '-' and must be 1-128 characters"@,
        )
    } else if !config.managers.contains_key(manager) {
        Some("Manager "@ + manager + " is not registered"@)
    } else {
        None
    }
}

/// The manager that handles a game: its own, or else the one for all other games.
pub open spec fn manager_of(config: ConfigModel, game: Seq<char>) -> Option<Seq<char>> {
    if config.games.contains_key(game) {
        Some(config.games[game])
    } else if config.games.contains_key("_"@) {
        Some(config.games["_"@])
    } else {
        None
    }
}

impl Config {
    /// Whether a file of the given size may be read: one that is too large is not.
    pub fn check_size(bytes: u64) -> (out: Result<(), ConfigError>)
        ensures
            match out {
                Ok(_) => bytes <= MAX_CONFIG_BYTES,
                Err(error) => bytes > MAX_CONFIG_BYTES && error@ == ConfigFault::TooLarge,
            },
            out is Ok <==> bytes <= 1024 * 1024,
            out matches Err(error) ==> error is TooLarge,
    {
        if bytes > MAX_CONFIG_BYTES {
            Err(ConfigError::TooLarge)
        } else {
            Ok(())
        }
    }

    /// Whether a file may be read, by its size where that is known: one of unknown size may.
    pub fn check_known_size(bytes: Option<u64>) -> (out: Result<(), ConfigError>)
        ensures
            out is Err <==> (bytes matches Some(n) && n > MAX_CONFIG_BYTES),
            out matches Err(error) ==> error@ == ConfigFault::TooLarge,
            out is Ok <==> (bytes matches Some(n) ==> n <= 1024 * 1024),
            out matches Err(error) ==> error is TooLarge,
    {
        match bytes {
            Some(n) => Config::check_size(n),
            None => Ok(()),
        }
    }

    /// The configuration in a file. A file that is not there holds an empty one.
    pub fn read(file: FileText) -> (out: Result<Config, ConfigError>)
        ensures
            match file {
                FileText::Read(text) => agrees(out, parsed(text@)),
                FileText::NotFound => out is Ok && out->Ok_0@ == empty_config(),
                FileText::Failed(reason) => out is Err && out->Err_0@ == ConfigFault::Unreadable(
                    reason@,
                ),
            },
            file is NotFound ==> out->Ok_0.games@.dom().is_empty(),
            file is NotFound ==> out->Ok_0.managers@.dom().is_empty(),
            file is NotFound ==> out->Ok_0.pipes@.dom().is_empty(),
            file matches FileText::Read(text) ==> match out {
                Ok(config) => parsed(text@) == Ok::<ConfigModel, ConfigFault>(
                    ConfigModel {
                        games: config.games@,
                        managers: config.managers@,
                        pipes: config.pipes@,
                    },
                ),
                Err(error) => parsed(text@) == Err::<ConfigModel, ConfigFault>(error@),
            },
            file matches FileText::Failed(reason) ==> out == Err::<Config, ConfigError>(
                ConfigError::Unreadable(reason),
            ),
    {
        match file {
            FileText::Read(text) => parse_config(text.as_str()),
            FileText::NotFound => parse_config(empty_config_text()),
            FileText::Failed(reason) => Err(ConfigError::Unreadable(reason)),
        }
    }

    /// What to write where in order to save the configuration in the given file.
    pub fn write_config(&self, config_file: &str) -> (plan: SavePlan)
        ensures
            plan.file@ == config_file@,
            plan.temp_file@ == config_file@ + ".tmp"@,
            plan.text@ == config_text(self@),
            finite(self@),
    {
        let mut temp_file: String = config_file.to_owned();
        temp_file.append(".tmp");
        SavePlan { file: config_file.to_owned(), temp_file, text: to_config_text(self) }
    }

    /// Lets a manager handle a game.
    pub fn assign(&mut self, manager: &str, game: &str) -> (out: Result<(), String>)
        ensures
            out is Ok,
            final(self)@ == assigned(old(self)@, manager@, game@),
            final(self).games@ == old(self).games@.insert(game@, manager@),
            final(self).managers@ == old(self).managers@,
            final(self).pipes@ == old(self).pipes@,
    {
        self.games.insert(game.to_owned(), manager.to_owned());
        Ok(())
    }

    /// Registers a manager, with the command that starts it.
    pub fn register(&mut self, manager: &str, command: &str) -> (out: Result<(), String>)
        ensures
            out is Ok,
            final(self)@ == registered(old(self)@, manager@, command@),
            final(self).managers@ == old(self).managers@.insert(manager@, command@),
            final(self).games@ == old(self).games@,
            final(self).pipes@ == old(self).pipes@,
    {
        self.managers.insert(manager.to_owned(), command.to_owned());
        Ok(())
    }

    /// Deregisters a manager, and its pipe with it.
    pub fn deregister(&mut self, manager: &str) -> (out: Result<(), String>)
        ensures
            out is Ok,
            final(self)@ == deregistered(old(self)@, manager@),
            final(self).managers@ == old(self).managers@.remove(manager@),
            final(self).pipes@ == old(self).pipes@.remove(manager@),
            final(self).games@ == old(self).games@,
    {
        self.managers.remove(manager);
        self.pipes.remove(manager);
        Ok(())
    }

    /// Registers the pipe through which a manager takes links.
    pub fn register_pipe(&mut self, manager: &str, pipe: &str) -> (out: Result<(), String>)
        ensures
            match (out, pipe_refusal(old(self)@, manager@, pipe@)) {
                (Ok(_), None) => final(self)@ == piped(old(self)@, manager@, pipe@),
                (Err(message), Some(m)) => message@ == m && final(self)@ == old(self)@,
                _ => false,
            },
            out is Ok <==> valid_pipe_name(pipe@) && old(self).managers@.contains_key(manager@),
            out is Ok ==> final(self).pipes@ == old(self).pipes@.insert(manager@, pipe@),
            out is Err ==> final(self).pipes@ == old(self).pipes@,
            final(self).games@ == old(self).games@,
            final(self).managers@ == old(self).managers@,
    {
        if !is_valid_pipe_name(pipe) {
            return Err(
                "Pipe name may only contain A-Z, a-z, 0-9, '.', '_' or '-' and must be 1-128 characters".to_owned(),
            );
        }
        if !self.managers.contains_key(manager) {
            let mut message: String = "Manager ".to_owned();
            message.append(manager);
            message.append(" is not registered");
            return Err(message);
        }
        self.pipes.insert(manager.to_owned(), pipe.to_owned());
        Ok(())
    }

    /// The manager that handles a game.
    pub fn resolve(&self, game: &str) -> (out: Result<String, String>)
        ensures
            match (out, manager_of(self@, game@)) {
                (Ok(manager), Some(m)) => manager@ == m,
                (Err(message), None) => message@ == "No manager for game "@ + game@,
                _ => false,
            },
            out is Ok <==> self.games@.contains_key(game@) || self.games@.contains_key("_"@),
            out matches Ok(manager) ==> manager@ == if self.games@.contains_key(game@) {
                self.games@[game@]
            } else {
                self.games@["_"@]
            },
    {
        match self.games.get(game) {
            Some(manager) => Ok(manager.clone()),
            None => match self.games.get("_") {
                Some(manager) => Ok(manager.clone()),
                None => {
                    let mut message: String = "No manager for game ".to_owned();
                    message.append(game);
                    Err(message)
                },
            },
        }
    }
}

/// The message of an error.
pub open spec fn fault_message(fault: ConfigFault) -> Seq<char> {
    match fault {
        ConfigFault::InvalidLine(line) => "Invalid config line: "@ + line,
        ConfigFault::OutsideSection => "Key/value outside of known section"@,
        ConfigFault::TooLarge => "config file too large"@,
        ConfigFault::Unreadable(reason) => reason,
    }
}

impl ConfigError {
    /// The error in words.
    pub fn message(&self) -> (message: String)
        ensures
            message@ == fault_message(self@),
            match self {
                ConfigError::InvalidLine(line) => message@ == "Invalid config line: "@ + line@,
                ConfigError::OutsideSection => message@ == "Key/value outside of known section"@,
                ConfigError::TooLarge => message@ == "config file too large"@,
                ConfigError::Unreadable(reason) => message@ == reason@,
            },
    {
        match self {
            ConfigError::InvalidLine(line) => {
                let mut message: String = "Invalid config line: ".to_owned();
                message.append(line.as_str());
                message
            },
            ConfigError::OutsideSection => "Key/value outside of known section".to_owned(),
            ConfigError::TooLarge => "config file too large".to_owned(),
            ConfigError::Unreadable(reason) => reason.clone(),
        }
    }
}

} // verus!
