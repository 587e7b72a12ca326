use nxmproxy::config_file::{
    append_section, empty_config_text, escape_value, find_section, next_save_step, parse_config,
    parse_key_value, parse_value, to_config_text, unescape_quoted, Config, ConfigError, FileText,
    SaveStep, Section, MAX_CONFIG_BYTES,
};
use nxmproxy::entries::Entries;
use nxmproxy::pipe::{is_valid_pipe_name, pipe_path, try_write_pipe};

fn pairs(e: &Entries) -> Vec<(String, String)> {
    (0..e.len()).map(|i| (e.at(i).0.clone(), e.at(i).1.clone())).collect()
}

fn empty() -> Config {
    Config::read(FileText::NotFound).unwrap()
}

fn same(a: &Config, b: &Config) -> bool {
    pairs(&a.games) == pairs(&b.games)
        && pairs(&a.managers) == pairs(&b.managers)
        && pairs(&a.pipes) == pairs(&b.pipes)
}

#[test]
fn escapes_are_undone() {
    assert_eq!(escape_value("a\\b\"c\nd\re\tf"), "a\\\\b\\\"c\\nd\\re\\tf");
    assert_eq!(unescape_quoted("a\\\\b\\\"c\\nd\\re\\tf"), "a\\b\"c\nd\re\tf");
    for s in ["", "plain", "C:\\new\\run.exe \"%1\"", "\\", "\n\r\t", "ä=\u{1f600}"] {
        assert_eq!(unescape_quoted(&escape_value(s)), s);
    }
}

#[test]
fn other_escapes_stand_for_themselves() {
    assert_eq!(unescape_quoted("\\x\\\\n"), "x\\n");
    assert_eq!(unescape_quoted("end\\"), "end");
}

#[test]
fn values_are_trimmed_or_unquoted() {
    assert_eq!(parse_value("  plain text "), "plain text");
    assert_eq!(parse_value(" \" kept \" "), " kept ");
    assert_eq!(parse_value("\"\""), "");
    assert_eq!(parse_value("\""), "\"");
    assert_eq!(parse_value("\"half"), "\"half");
    assert_eq!(parse_value("'x'"), "'x'");
    assert_eq!(parse_value(""), "");
}

#[test]
fn entries_are_cut_at_the_first_equals_sign() {
    assert_eq!(parse_key_value("a = b = c"), Some(("a".to_string(), "b = c".to_string())));
    assert_eq!(parse_key_value("\"a\"=\"b\""), Some(("a".to_string(), "b".to_string())));
    assert_eq!(parse_key_value("="), Some(("".to_string(), "".to_string())));
    assert_eq!(parse_key_value("nothing"), None);
}

#[test]
fn sections_have_names() {
    assert_eq!(find_section("games"), Section::Games);
    assert_eq!(find_section("managers"), Section::Managers);
    assert_eq!(find_section("pipes"), Section::Pipes);
    assert_eq!(find_section("Games"), Section::Other);
}

#[test]
fn a_file_is_read() {
    let text = "# comment\r\n; another\r\n\r\n[ games ]\r\nskyrim = vortex\r\nskyrim=\"mo 2\"\r\n\
                [managers]\n  vortex = \"C:\\\\vortex.exe\" \n[unknown]\n[pipes]\nvortex=p\n_ = x";
    let c = parse_config(text).unwrap();
    assert_eq!(pairs(&c.games), vec![("skyrim".to_string(), "mo 2".to_string())]);
    assert_eq!(pairs(&c.managers), vec![("vortex".to_string(), "C:\\vortex.exe".to_string())]);
    assert_eq!(
        pairs(&c.pipes),
        vec![("_".to_string(), "x".to_string()), ("vortex".to_string(), "p".to_string())]
    );
}

#[test]
fn a_line_that_is_no_entry_is_an_error() {
    let e = parse_config("[games]\n  nonsense \n").unwrap_err();
    assert!(matches!(&e, ConfigError::InvalidLine(l) if l == "nonsense"));
    assert_eq!(e.message(), "Invalid config line: nonsense");
    assert!(matches!(parse_config("[games").unwrap_err(), ConfigError::InvalidLine(_)));
}

#[test]
fn an_entry_outside_the_sections_is_an_error() {
    for text in ["a=b", "[games]\na=b\n[other]\nc=d"] {
        let e = parse_config(text).unwrap_err();
        assert!(matches!(e, ConfigError::OutsideSection));
        assert_eq!(e.message(), "Key/value outside of known section");
    }
}

#[test]
fn an_unreadable_or_large_file_is_an_error() {
    let e = Config::read(FileText::Failed("denied".to_string())).unwrap_err();
    assert_eq!(e.message(), "denied");
    assert!(Config::check_size(MAX_CONFIG_BYTES).is_ok());
    assert_eq!(MAX_CONFIG_BYTES, 1 << 20);
    let e = Config::check_size(MAX_CONFIG_BYTES + 1).unwrap_err();
    assert_eq!(e.message(), "config file too large");
}

#[test]
fn a_missing_file_holds_an_empty_configuration() {
    let c = empty();
    assert_eq!((c.games.len(), c.managers.len(), c.pipes.len()), (0, 0, 0));
    assert_eq!(empty_config_text(), "\n[games]\n\n[managers]\n\n[pipes]\n");
}

#[test]
fn a_section_is_written_in_the_order_of_its_keys() {
    let mut e = Entries::new();
    e.insert("b".to_string(), "2".to_string());
    e.insert("a\"".to_string(), "1\n".to_string());
    let mut out = "x".to_string();
    append_section(&mut out, "games", &e);
    assert_eq!(out, "x[games]\n\"a\\\"\" = \"1\\n\"\n\"b\" = \"2\"\n\n");
}

#[test]
fn what_was_written_is_read_back() {
    let mut c = empty();
    c.assign("vortex", "skyrim").unwrap();
    c.assign("mo \"2\"", "_").unwrap();
    c.register("vortex", "C:\\new\\vortex.exe = \"%1\"\t\r\n").unwrap();
    c.register("", " ").unwrap();
    c.register_pipe("vortex", "pipe-1").unwrap();
    let text = to_config_text(&c);
    assert_eq!(
        text,
        "[games]\n\"_\" = \"mo \\\"2\\\"\"\n\"skyrim\" = \"vortex\"\n\n\
         [managers]\n\"\" = \" \"\n\"vortex\" = \"C:\\\\new\\\\vortex.exe = \\\"%1\\\"\\t\\r\\n\"\n\n\
         [pipes]\n\"vortex\" = \"pipe-1\"\n\n"
    );
    assert!(same(&parse_config(&text).unwrap(), &c));
}

#[test]
fn a_key_with_an_equals_sign_is_not_read_back() {
    let mut c = empty();
    c.assign("m", "a=b").unwrap();
    let d = parse_config(&to_config_text(&c)).unwrap();
    assert!(!same(&c, &d));
    assert_eq!(pairs(&d.games), vec![("\"a".to_string(), "b\" = \"m\"".to_string())]);
}

#[test]
fn games_resolve_to_their_managers() {
    let mut c = empty();
    assert_eq!(c.resolve("skyrim"), Err("No manager for game skyrim".to_string()));
    c.assign("vortex", "skyrim").unwrap();
    assert_eq!(c.resolve("skyrim"), Ok("vortex".to_string()));
    assert_eq!(c.resolve("fallout"), Err("No manager for game fallout".to_string()));
    c.assign("mo2", "_").unwrap();
    assert_eq!(c.resolve("fallout"), Ok("mo2".to_string()));
    assert_eq!(c.resolve("skyrim"), Ok("vortex".to_string()));
    c.assign("mo2", "skyrim").unwrap();
    assert_eq!(c.resolve("skyrim"), Ok("mo2".to_string()));
}

#[test]
fn pipes_belong_to_registered_managers() {
    let mut c = empty();
    let rule = "Pipe name may only contain A-Z, a-z, 0-9, '.', '_' or '-' and must be 1-128 characters";
    assert_eq!(c.register_pipe("vortex", "p/q"), Err(rule.to_string()));
    assert_eq!(
        c.register_pipe("vortex", "p"),
        Err("Manager vortex is not registered".to_string())
    );
    c.register("vortex", "v.exe").unwrap();
    assert_eq!(c.register_pipe("vortex", "p"), Ok(()));
    assert_eq!(c.pipes.get("vortex"), Some(&"p".to_string()));
    c.deregister("vortex").unwrap();
    assert!(!c.managers.contains_key("vortex"));
    assert!(!c.pipes.contains_key("vortex"));
}

#[test]
fn deregistering_undoes_registering() {
    let mut c = empty();
    c.register("other", "o.exe").unwrap();
    c.assign("vortex", "skyrim").unwrap();
    let before = to_config_text(&c);
    c.register("vortex", "v.exe").unwrap();
    c.register_pipe("vortex", "p").unwrap();
    c.deregister("vortex").unwrap();
    assert_eq!(to_config_text(&c), before);
}

#[test]
fn saving_replaces_the_file_last() {
    let plan = empty().write_config("C:\\x\\config.toml");
    assert_eq!(plan.file, "C:\\x\\config.toml");
    assert_eq!(plan.temp_file, "C:\\x\\config.toml.tmp");
    assert_eq!(plan.text, "[games]\n\n[managers]\n\n[pipes]\n\n");
    let mut step = SaveStep::Create;
    let mut seen = vec![];
    while step != SaveStep::Saved {
        seen.push(step);
        step = next_save_step(step, Ok(())).unwrap();
    }
    assert_eq!(seen, vec![SaveStep::Create, SaveStep::Write, SaveStep::Replace]);
    let fail = |s| next_save_step(s, Err("why".to_string())).unwrap_err();
    assert_eq!(fail(SaveStep::Create), "Failed to create temp config file: why");
    assert_eq!(fail(SaveStep::Write), "Failed to write config file: why");
    assert_eq!(fail(SaveStep::Replace), "Failed to apply config file changes: why");
}

#[test]
fn pipe_names_are_short_and_plain() {
    assert!(is_valid_pipe_name("A-Z.a_z.09"));
    assert!(is_valid_pipe_name(&"x".repeat(128)));
    for bad in ["", "a b", "a\\b", "ä", "a/b", "a\n", "@", "[", "`", "{", "/", ":"] {
        assert!(!is_valid_pipe_name(bad));
    }
    assert!(!is_valid_pipe_name(&"x".repeat(129)));
}

#[test]
fn pipes_have_paths_and_outcomes() {
    assert_eq!(pipe_path("vortex"), "\\\\.\\pipe\\vortex");
    assert!(try_write_pipe(Ok(0)));
    assert!(try_write_pipe(Ok(7)));
    assert!(!try_write_pipe(Err("busy".to_string())));
}

#[test]
fn rewriting_a_file_keeps_what_it_says() {
    let text = "[games]\n a b = \"x\\y\"\n\"q\\\"\" = =\n\\n = \"\n[managers]\n = 1\n[pipes]\nm=a=b";
    let once = parse_config(text).unwrap();
    assert_eq!(once.games.get("\\n"), Some(&"\"".to_string()));
    let twice = parse_config(&to_config_text(&once)).unwrap();
    assert!(same(&once, &twice));
}

#[test]
fn changes_are_there_after_a_restart() {
    let mut c = empty();
    c.register("mo2", "m.exe = %1").unwrap();
    c.assign("mo2", "fallout 4").unwrap();
    c.register_pipe("mo2", "p.1").unwrap();
    let mut c = parse_config(&to_config_text(&c)).unwrap();
    assert_eq!(c.resolve("fallout 4"), Ok("mo2".to_string()));
    assert_eq!(c.managers.get("mo2"), Some(&"m.exe = %1".to_string()));
    c.deregister("mo2").unwrap();
    let c = parse_config(&to_config_text(&c)).unwrap();
    assert_eq!((c.games.len(), c.managers.len(), c.pipes.len()), (1, 0, 0));
}

#[test]
fn comments_and_line_endings_do_not_matter() {
    let plain = parse_config("[games]\na = b\n").unwrap();
    let other = parse_config("\r\n# x = y\r\n[games]\r\n ; [pipes]\r\n\ta = b \r\n").unwrap();
    assert!(same(&plain, &other));
}

#[test]
fn a_file_of_unknown_size_may_be_read() {
    assert!(Config::check_known_size(None).is_ok());
    assert!(Config::check_known_size(Some(MAX_CONFIG_BYTES)).is_ok());
    let e = Config::check_known_size(Some(MAX_CONFIG_BYTES + 1)).unwrap_err();
    assert!(matches!(e, ConfigError::TooLarge));
}

#[test]
fn a_saved_file_that_is_too_large_is_refused() {
    let mut c = empty();
    c.register("m", &"x".repeat(1 << 20)).unwrap();
    let text = to_config_text(&c);
    assert!(Config::check_known_size(Some(text.len() as u64)).is_err());
    assert!(same(&parse_config(&text).unwrap(), &c));
}
