use nxmproxy::config_file::{config_file_name, Config, FileText};
use nxmproxy::download::{
    after_pipe, after_spawn, build_manager_invocation, command_line, download, launch_command,
    Delivery,
};
use nxmproxy::install::{
    applocal_path, current_directory, directory_name, elevated_arguments, elevation_verb, handler_command, install,
    join_arguments, log_file_name, protocol, test_installed, FilesRoot, InstallStep,
};
use nxmproxy::logger::{Destination, Level, Logger};
use nxmproxy::options::{
    after_directory, after_read, exit_code, installed_line, main_impl, parse_options, usage, Options, Outcome, Task,
};
use nxmproxy::url::{parse_nxm_game, sanitize_url_for_log};
use nxmproxy::win32::{
    get_protocol_handler, handler_key, handler_value, parse_commandline, set_protocol_handler,
    string_from_pwstr, string_from_wide, to_wide, wide_bytes, GetStep, SetStep,
};

const PLACEHOLDER: &str = "__NXMPROXY_URL_PLACEHOLDER__";

fn strings(v: &[&str]) -> Vec<String> {
    v.iter().map(|s| s.to_string()).collect()
}

fn empty() -> Config {
    Config::read(FileText::NotFound).unwrap()
}

#[test]
fn the_game_stands_behind_the_scheme() {
    assert_eq!(parse_nxm_game("nxm://skyrim/mods/1?key=x#y"), Ok("skyrim"));
    assert_eq!(parse_nxm_game("nxm://skyrim?a/b"), Ok("skyrim"));
    assert_eq!(parse_nxm_game("nxm://skyrim#a"), Ok("skyrim"));
    assert_eq!(parse_nxm_game("nxm://ä"), Ok("ä"));
}

#[test]
fn other_links_are_refused() {
    assert_eq!(parse_nxm_game("http://x"), Err("Not an nxm url".to_string()));
    assert_eq!(parse_nxm_game("NXM://x"), Err("Not an nxm url".to_string()));
    assert_eq!(parse_nxm_game(""), Err("Not an nxm url".to_string()));
    assert_eq!(parse_nxm_game("nxm://"), Err("Invalid url".to_string()));
    assert_eq!(parse_nxm_game("nxm:///x"), Err("Invalid url".to_string()));
    let longest = format!("nxm://{}", "x".repeat(8192 - 6));
    assert!(parse_nxm_game(&longest).is_ok());
    assert_eq!(parse_nxm_game(&format!("{}y", longest)), Err("URL too long".to_string()));
    let wide = format!("nxm://{}", "ä".repeat(4094));
    assert_eq!(parse_nxm_game(&wide), Err("URL too long".to_string()));
}

#[test]
fn the_query_is_not_logged() {
    assert_eq!(sanitize_url_for_log("nxm://a/b?key=secret#x"), "nxm://a/b");
    assert_eq!(sanitize_url_for_log("nxm://a/b#x?y"), "nxm://a/b");
    assert_eq!(sanitize_url_for_log("nxm://a/ä"), "nxm://a/ä");
    assert_eq!(sanitize_url_for_log("?"), "");
}

#[test]
fn a_link_goes_to_the_pipe_first() {
    let mut c = empty();
    c.register("vortex", "v.exe %1").unwrap();
    c.assign("vortex", "skyrim").unwrap();
    let url = "nxm://skyrim/1";
    assert!(matches!(download(&c, url), Ok(Delivery::Launch { manager }) if manager == "vortex"));
    c.register_pipe("vortex", "p").unwrap();
    assert!(matches!(download(&c, url),
        Ok(Delivery::Pipe { manager, pipe }) if manager == "vortex" && pipe == "p"));
    assert!(matches!(after_pipe("vortex".to_string(), true), Delivery::Done));
    assert!(matches!(after_pipe("vortex".to_string(), false),
        Delivery::Launch { manager } if manager == "vortex"));
    assert_eq!(download(&c, "x").unwrap_err(), "Not an nxm url");
    assert_eq!(download(&c, "nxm://oblivion").unwrap_err(), "No manager for game oblivion");
    assert_eq!(launch_command(&c, "vortex"), format!("v.exe {}", PLACEHOLDER));
}

#[test]
fn the_placeholder_stands_for_the_link() {
    assert_eq!(
        command_line("\"a b.exe\" -u=%1 \"%1\""),
        format!("\"a b.exe\" -u={} \"{}\"", PLACEHOLDER, PLACEHOLDER)
    );
    assert_eq!(command_line("run"), format!("run {}", PLACEHOLDER));
    assert_eq!(command_line(""), format!(" {}", PLACEHOLDER));
}

#[test]
fn the_link_stays_within_its_token() {
    let args = vec![format!("-u={}", PLACEHOLDER), PLACEHOLDER.to_string(), "x".to_string()];
    let url = "nxm://a b\" \"--evil";
    let (exe, out) = build_manager_invocation(Ok(("v.exe".to_string(), args)), url).unwrap();
    assert_eq!(exe, "v.exe");
    assert_eq!(out, vec![format!("-u={}", url), url.to_string(), "x".to_string()]);
    assert_eq!(
        build_manager_invocation(Err("bad".to_string()), url).unwrap_err(),
        "Failed to parse command line: bad"
    );
    assert_eq!(after_spawn(Ok(())), Ok(()));
    assert_eq!(after_spawn(Err("no".to_string())), Err("Failed to spawn manager: no".to_string()));
}

#[test]
fn commands_are_read_in_any_case() {
    let read = |v: &[&str]| parse_options(&strings(v));
    assert!(matches!(read(&["URL", "nxm://X"]), Ok(Options::Url { url }) if url == "nxm://X"));
    assert!(matches!(read(&["Register", "m", "c"]),
        Ok(Options::Register { manager, command }) if manager == "m" && command == "c"));
    assert!(matches!(read(&["deregister", "m"]),
        Ok(Options::Deregister { manager }) if manager == "m"));
    assert!(matches!(read(&["assign", "m", "g"]),
        Ok(Options::Assign { manager, game }) if manager == "m" && game == "g"));
    assert!(matches!(read(&["pipe", "m", "p"]),
        Ok(Options::Pipe { manager, pipe }) if manager == "m" && pipe == "p"));
    assert!(matches!(read(&["install"]), Ok(Options::Install)));
    assert!(matches!(read(&["TEST"]), Ok(Options::Test)));
}

#[test]
fn other_arguments_show_the_usage() {
    let cases: Vec<Vec<&str>> = vec![
        vec![],
        vec!["url"],
        vec!["url", "a", "b"],
        vec!["register", "m"],
        vec!["install", "x"],
        vec!["help"],
        vec![""],
    ];
    for v in cases {
        assert_eq!(parse_options(&strings(&v)).unwrap_err(), usage());
    }
    assert!(usage().starts_with("Usage:\n  nxmproxy url <nxm-url>\n"));
    assert!(usage().ends_with("\n  nxmproxy install\n  nxmproxy test"));
}

#[test]
fn each_command_does_its_part() {
    let mut c = empty();
    let register = Options::Register { manager: "m".to_string(), command: "x".to_string() };
    assert!(matches!(main_impl(register, &mut c), Ok(Task::Save)));
    let assign = Options::Assign { manager: "m".to_string(), game: "g".to_string() };
    assert!(matches!(main_impl(assign, &mut c), Ok(Task::Save)));
    let pipe = Options::Pipe { manager: "m".to_string(), pipe: "p".to_string() };
    assert!(matches!(main_impl(pipe, &mut c), Ok(Task::Save)));
    assert_eq!(c.managers.get("m"), Some(&"x".to_string()));
    assert_eq!(c.games.get("g"), Some(&"m".to_string()));
    assert_eq!(c.pipes.get("m"), Some(&"p".to_string()));
    let other = Options::Pipe { manager: "n".to_string(), pipe: "p".to_string() };
    assert_eq!(main_impl(other, &mut c).unwrap_err(), "Manager n is not registered");
    let url = Options::Url { url: "u".to_string() };
    assert!(matches!(main_impl(url, &mut c), Ok(Task::Download { url }) if url == "u"));
    assert!(matches!(main_impl(Options::Install, &mut c), Ok(Task::Install)));
    assert!(matches!(main_impl(Options::Test, &mut c), Ok(Task::Test)));
    let gone = Options::Deregister { manager: "m".to_string() };
    assert!(matches!(main_impl(gone, &mut c), Ok(Task::Save)));
    assert_eq!((c.managers.len(), c.pipes.len(), c.games.len()), (0, 0, 1));
}

#[test]
fn the_handler_is_installed_with_the_rights_it_takes() {
    assert_eq!(handler_command("C:\\n p.exe"), "\"C:\\n p.exe\" url \"%1\"");
    assert_eq!(install(Ok(())), InstallStep::Done);
    assert_eq!(install(Err(Some(5))), InstallStep::Elevate);
    assert_eq!(install(Err(Some(2))), InstallStep::Failed);
    assert_eq!(install(Err(None)), InstallStep::Failed);
    assert_eq!(join_arguments(&strings(&["install"])), "install");
    assert_eq!(join_arguments(&strings(&["a", "", "b"])), "a  b");
    assert_eq!(join_arguments(&strings(&[])), "");
}

#[test]
fn the_handler_is_known_by_its_name() {
    assert!(test_installed(Some("nxmproxy.exe".to_string())));
    assert!(!test_installed(Some("NXMPROXY.EXE".to_string())));
    assert!(!test_installed(None));
}

#[test]
fn files_go_to_the_first_directory_that_is_set() {
    assert_eq!(applocal_path(true, true), FilesRoot::LocalAppData);
    assert_eq!(applocal_path(true, false), FilesRoot::LocalAppData);
    assert_eq!(applocal_path(false, true), FilesRoot::AppData);
    assert_eq!(applocal_path(false, false), FilesRoot::Current);
}

#[test]
fn log_lines_name_their_level() {
    assert_eq!(Logger::info("m"), "info: m");
    assert_eq!(Logger::warn("m"), "warn: m");
    assert_eq!(Logger::error(""), "error: ");
    assert_eq!(Logger::debug("m", true), Some("debug: m".to_string()));
    assert_eq!(Logger::trace("m", true), Some("trace: m".to_string()));
}

#[test]
fn a_release_build_leaves_out_debugging() {
    assert_eq!(Logger::debug("m", false), None);
    assert_eq!(Logger::trace("m", false), None);
    assert_eq!(Logger::max_level(true), Level::Trace);
    assert_eq!(Logger::max_level(false), Level::Info);
    for level in [Level::Error, Level::Warn, Level::Info, Level::Debug, Level::Trace] {
        assert!(Logger::enabled(level, true));
        assert_eq!(Logger::log(level, "m", false).is_some(), Logger::enabled(level, false));
        assert_eq!(Logger::enabled(level, false), level != Level::Debug && level != Level::Trace);
    }
    assert_eq!(Logger::log(Level::Warn, "m", false), Some("warn: m".to_string()));
}

#[test]
fn wide_strings_agree_with_std() {
    for s in ["", "abc", "ä€", "\u{1f600}", "a\u{10ffff}b", "\u{ffff}\u{10000}", "\u{d7ff}\u{e000}"] {
        let mut want: Vec<u16> = s.encode_utf16().collect();
        assert_eq!(string_from_wide(&want), Some(s.to_string()));
        want.push(0);
        assert_eq!(to_wide(s), want);
    }
}

#[test]
fn half_pairs_are_no_string() {
    let cases: Vec<Vec<u16>> = vec![
        vec![0xd800],
        vec![0xdc00],
        vec![0xd800, 0x41],
        vec![0xdc00, 0xd800],
        vec![0x41, 0xdbff, 0xd800, 0xdc00],
    ];
    for units in cases {
        assert_eq!(string_from_wide(&units), None);
        assert!(String::from_utf16(&units).is_err());
    }
}

#[test]
fn command_lines_have_a_program() {
    assert_eq!(
        parse_commandline(strings(&["a", "b", "c"])),
        ("a".to_string(), strings(&["b", "c"]))
    );
    assert_eq!(parse_commandline(strings(&["a"])), ("a".to_string(), strings(&[])));
}

#[test]
fn registry_values_are_wide_strings() {
    assert_eq!(handler_key("nxm"), to_wide("nxm\\shell\\open\\command"));
    assert_eq!(wide_bytes(&vec![0x0041, 0x20ac, 0]), vec![0x41, 0, 0xac, 0x20, 0, 0]);
    assert_eq!(handler_value("A"), vec![0x41, 0, 0, 0]);
}

#[test]
fn setting_a_command_takes_three_steps() {
    assert_eq!(set_protocol_handler(SetStep::Create, 0), SetStep::Assign);
    assert_eq!(set_protocol_handler(SetStep::Assign, 0), SetStep::Close);
    assert_eq!(set_protocol_handler(SetStep::Close, 0), SetStep::Done);
    for step in [SetStep::Create, SetStep::Assign, SetStep::Close] {
        assert_eq!(set_protocol_handler(step, 5), SetStep::Failed { code: 5 });
    }
}

#[test]
fn a_command_that_was_set_is_got() {
    let value = handler_value("\"n\" url");
    let mut buffer = to_wide("\"n\" url");
    let first = get_protocol_handler(GetStep::Open, 0, 0, vec![]);
    assert!(matches!(first, GetStep::Read { units: 256, retried: false }));
    buffer.resize(256, 7);
    let next = get_protocol_handler(first, 0, value.len() as u32, buffer);
    let done = get_protocol_handler(next, 0, 0, vec![]);
    let GetStep::Done { command } = done else { panic!() };
    assert_eq!(string_from_wide(&command), Some("\"n\" url".to_string()));
}

#[test]
fn a_small_buffer_is_tried_again_once() {
    let first = GetStep::Read { units: 256, retried: false };
    let again = get_protocol_handler(first, 234, 1001, vec![0; 256]);
    assert!(matches!(again, GetStep::Read { units: 501, retried: true }));
    let failed = get_protocol_handler(again, 234, 1001, vec![0; 501]);
    assert!(matches!(failed, GetStep::Failed { code: 234 }));
}

#[test]
fn a_refusal_of_the_system_ends_the_search() {
    let refused = |step| matches!(get_protocol_handler(step, 2, 0, vec![]), GetStep::Failed { code: 2 });
    assert!(refused(GetStep::Open));
    assert!(refused(GetStep::Read { units: 256, retried: false }));
    assert!(refused(GetStep::Close { command: vec![] }));
}

#[test]
fn the_program_exits_with_its_outcome() {
    assert_eq!(exit_code(Ok(Outcome::Done)), 0);
    assert_eq!(exit_code(Ok(Outcome::Tested { installed: true })), 0);
    assert_eq!(exit_code(Ok(Outcome::Tested { installed: false })), 1);
    assert_eq!(exit_code(Err("x".to_string())), 1);
}

#[test]
fn failures_say_what_failed() {
    assert_eq!(after_directory(Ok(())), Ok(()));
    assert_eq!(
        after_directory(Err("full".to_string())),
        Err("Failed to create project directory: full".to_string())
    );
    assert!(after_read(Config::read(FileText::NotFound)).is_ok());
    assert_eq!(
        after_read(Config::read(FileText::Read("x".to_string()))).unwrap_err(),
        "Failed to read config: Invalid config line: x"
    );
    assert_eq!(Logger::init(Ok(()), false), Ok(Level::Info));
    assert_eq!(
        Logger::init(Err("taken".to_string()), true),
        Err("Failed to initialize logger backend: taken".to_string())
    );
    assert_eq!(
        Logger::no_file("a.log", "denied"),
        "warn: failed to open log file 'a.log': denied, falling back to stderr logger"
    );
}

#[test]
fn names_are_fixed() {
    assert_eq!(protocol(), "nxm");
    assert_eq!(elevated_arguments(), strings(&["install"]));
    assert_eq!(elevation_verb(), "runas");
    assert_eq!(directory_name(), "nxmproxy");
    assert_eq!(current_directory(), ".");
    assert_eq!(log_file_name(), "nxm.log");
    assert_eq!(config_file_name(), "config.toml");
}

#[test]
fn the_program_says_whether_it_is_installed() {
    assert_eq!(installed_line(true), "is installed: true");
    assert_eq!(installed_line(false), "is installed: false");
}

#[test]
fn a_string_of_the_system_ends_at_its_first_zero() {
    assert_eq!(string_from_pwstr(None), Some("".to_string()));
    assert_eq!(string_from_pwstr(Some(&to_wide("a\u{1f600}"))), Some("a\u{1f600}".to_string()));
    assert_eq!(string_from_pwstr(Some(&to_wide("ab\0cd"))), Some("ab".to_string()));
    assert_eq!(string_from_pwstr(Some(&vec![0x41, 0, 0xd800])), Some("A".to_string()));
    assert_eq!(string_from_pwstr(Some(&vec![0])), Some("".to_string()));
    assert_eq!(string_from_pwstr(Some(&vec![0xd800, 0])), None);
}

#[test]
fn two_links_differ_only_at_the_placeholder() {
    let fill = |url: &str| {
        let args = vec!["a".to_string(), PLACEHOLDER.to_string()];
        build_manager_invocation(Ok(("v.exe".to_string(), args)), url).unwrap()
    };
    let (one, other) = (fill("nxm://a b"), fill("nxm://c"));
    assert_eq!((one.0, one.1.len(), &one.1[0]), (other.0, other.1.len(), &other.1[0]));
    assert_ne!(one.1[1], other.1[1]);
}

#[test]
fn the_log_goes_to_its_file_or_to_the_error_stream() {
    assert_eq!(Logger::opened("a.log", Ok(())), (Destination::File, None));
    let (destination, warning) = Logger::opened("a.log", Err("denied".to_string()));
    assert_eq!(destination, Destination::Stderr);
    assert_eq!(warning, Some(Logger::no_file("a.log", "denied")));
    assert_eq!(Logger::destination(true), Destination::File);
    assert_eq!(Logger::destination(false), Destination::Stderr);
}
