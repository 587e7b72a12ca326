//! Becoming the handler of links, and where the program keeps its files.

use crate::text::{same_text, texts};
use vstd::prelude::*;
use vstd::string::*;

verus! {

/// The protocol whose links the program handles.
pub fn protocol() -> (name: &'static str)
    ensures
        name@ == "nxm"@,
{
    "nxm"
}

/// What the system is asked to do with the program when it takes more rights.
pub fn elevation_verb() -> (verb: &'static str)
    ensures
        verb@ == "runas"@,
{
    "runas"
}

/// The arguments with which the program is run again when it takes more rights to become the
/// handler of links.
pub fn elevated_arguments() -> (args: Vec<String>)
    ensures
        texts(args@) == seq!["install"@],
{
    let mut args: Vec<String> = Vec::new();
    args.push("install".to_owned());
    assert(texts(args@) =~= seq!["install"@]);
    args
}

/// The command that the system is to run for a link, given the path of the program.
pub open spec fn handler_command_text(program: Seq<char>) -> Seq<char> {
    "\""@ + program + "\" url \"%1\""@
}

/// Makes the command that the system is to run for a link.
pub fn handler_command(program: &str) -> (out: String)
    ensures
        out@ == handler_command_text(program@),
        out@ == "\""@ + program@ + "\" url \"%1\""@,
{
    let mut out: String = "\"".to_owned();
    out.append(program);
    out.append("\" url \"%1\"");
    out
}

/// What follows the attempt to register the handler.
#[derive(Clone, Copy, PartialEq, Eq, Structural, Debug)]
pub enum InstallStep {
    /// It is registered.
    Done,
    /// Run the program again with more rights.
    Elevate,
    /// It cannot be registered.
    Failed,
}

/// The code of the system for a refusal for want of rights.
pub const ACCESS_DENIED: i32 = 5;

/// Decides what follows the attempt to register the handler, by the code of the system that a
/// failure came with, where it came with one.
pub fn install(registered: Result<(), Option<i32>>) -> (step: InstallStep)
    ensures
        step == (match registered {
            Ok(_) => InstallStep::Done,
            Err(code) => if code == Some(ACCESS_DENIED) {
                InstallStep::Elevate
            } else {
                InstallStep::Failed
            },
        }),
        step == InstallStep::Done <==> registered is Ok,
        step == InstallStep::Elevate <==> registered == Err::<(), Option<i32>>(Some(5)),
{
    match registered {
        Ok(_) => InstallStep::Done,
        Err(Some(code)) => if code == ACCESS_DENIED {
            InstallStep::Elevate
        } else {
            InstallStep::Failed
        },
        Err(None) => InstallStep::Failed,
    }
}

/// Words with one space between each two.
pub open spec fn spaced(words: Seq<Seq<char>>) -> Seq<char>
    decreases words.len(),
{
    if words.len() == 0 {
        Seq::empty()
    } else if words.len() == 1 {
        words[0]
    } else {
        spaced(words.drop_last()) + " "@ + words.last()
    }
}

/// The arguments of a program as one text.
pub fn join_arguments(args: &Vec<String>) -> (out: String)
    ensures
        out@ == spaced(texts(args@)),
{
    let ghost words = texts(args@);
    let mut out: String = String::new();
    let mut i: usize = 0;
    while i < args.len()
        invariant
            i <= args@.len(),
            words == texts(args@),
            out@ == spaced(words.take(i as int)),
        decreases args@.len() - i,
    {
        assert(words.take(i + 1).drop_last() == words.take(i as int));
        assert(words.take(i + 1).last() == args@[i as int]@);
        if i > 0 {
            out.append(" ");
        } else {
            assert(out@ + args@[0]@ == args@[0]@);
        }
        out.append(args[i].as_str());
        i += 1;
    }
    assert(words.take(i as int) == words);
    out
}

/// Whether the handler of links is this program, by the name of the file that the handler's command
/// runs; a path without one has the empty name.
pub fn test_installed(file_name: Option<String>) -> (installed: bool)
    ensures
        installed == (file_name matches Some(name) && name@ == "nxmproxy.exe"@),
{
    match file_name {
        Some(name) => same_text(name.as_str(), "nxmproxy.exe"),
        None => false,
    }
}

/// The directory in which the program has its own.
#[derive(Clone, Copy, PartialEq, Eq, Structural, Debug)]
pub enum FilesRoot {
    /// The one that `LOCALAPPDATA` names.
    LocalAppData,
    /// The one that `APPDATA` names.
    AppData,
    /// The current one.
    Current,
}

/// The name of the directory that the program has for its own.
pub fn directory_name() -> (name: &'static str)
    ensures
        name@ == "nxmproxy"@,
{
    "nxmproxy"
}

/// The path of the current directory, where neither variable names another.
pub fn current_directory() -> (path: &'static str)
    ensures
        path@ == "."@,
{
    "."
}

/// The name of the file that the log is written to, in the directory of the program.
pub fn log_file_name() -> (name: &'static str)
    ensures
        name@ == "nxm.log"@,
{
    "nxm.log"
}

/// Decides in which directory the program has its own, by which of the two variables are set.
pub fn applocal_path(local_app_data: bool, app_data: bool) -> (root: FilesRoot)
    ensures
        root == (if local_app_data {
            FilesRoot::LocalAppData
        } else if app_data {
            FilesRoot::AppData
        } else {
            FilesRoot::Current
        }),
{
    if local_app_data {
        FilesRoot::LocalAppData
    } else if app_data {
        FilesRoot::AppData
    } else {
        FilesRoot::Current
    }
}

/// The command that the system is to run holds the path of the program, whole, between quotes, and
/// then the words that hand it the link.
pub proof fn law_handler_command_names_the_program(program: Seq<char>)
    ensures
        handler_command_text(program).len() == program.len() + 11,
        handler_command_text(program)[0] == '"',
        handler_command_text(program).subrange(1, 1int + program.len()) == program,
        handler_command_text(program).skip(1int + program.len()) == seq![
            '"',
            ' ',
            'u',
            'r',
            'l',
            ' ',
            '"',
            '%',
            '1',
            '"',
        ],
{
    reveal_strlit("\"");
    reveal_strlit("\" url \"%1\"");
    let text = handler_command_text(program);
    assert(text.subrange(1, 1int + program.len()) =~= program);
    assert(text.skip(1int + program.len()) =~= seq![
        '"',
        ' ',
        'u',
        'r',
        'l',
        ' ',
        '"',
        '%',
        '1',
        '"',
    ]);
}

/// Arguments are joined in their order, with one space between each two and none at the ends.
pub proof fn law_one_space_between_arguments(a: Seq<Seq<char>>, b: Seq<Seq<char>>, word: Seq<char>)
    ensures
        a.len() > 0 && b.len() > 0 ==> spaced(a + b) == spaced(a) + seq![' '] + spaced(b),
        spaced(seq![word]) == word,
        spaced(Seq::<Seq<char>>::empty()) == Seq::<char>::empty(),
    decreases b.len(),
{
    reveal_strlit(" ");
    assert(" "@ =~= seq![' ']);
    if a.len() > 0 && b.len() > 0 {
        let all = a + b;
        assert(all.last() == b.last());
        assert(all.drop_last() == a + b.drop_last());
        if b.len() == 1 {
            assert(a + b.drop_last() == a);
        } else {
            law_one_space_between_arguments(a, b.drop_last(), word);
            assert(spaced(all) == spaced(a) + seq![' '] + spaced(b.drop_last()) + " "@ + b.last());
            assert(spaced(all) =~= spaced(a) + seq![' '] + (spaced(b.drop_last()) + " "@
                + b.last()));
        }
    }
}

} // verus!
