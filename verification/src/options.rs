//! The command line of the program, and what each command does.

use crate::config_file::{
    assigned, deregistered, fault_message, pipe_refusal, piped, registered, Config, ConfigError,
};
use crate::text::{lowered, same_text, texts, to_lower};
use vstd::prelude::*;
use vstd::string::*;

verus! {

/// What the program is asked to do.
#[derive(Debug)]
pub enum Options {
    /// Hand a link to its manager.
    Url { url: String },
    /// Register a manager.
    Register { manager: String, command: String },
    /// Deregister a manager.
    Deregister { manager: String },
    /// Let a manager handle a game.
    Assign { manager: String, game: String },
    /// Register the pipe of a manager.
    Pipe { manager: String, pipe: String },
    /// Become the handler of links.
    Install,
    /// Tell whether the program is the handler of links.
    Test,
}

/// What options say.
pub enum OptionsModel {
    Url { url: Seq<char> },
    Register { manager: Seq<char>, command: Seq<char> },
    Deregister { manager: Seq<char> },
    Assign { manager: Seq<char>, game: Seq<char> },
    Pipe { manager: Seq<char>, pipe: Seq<char> },
    Install,
    Test,
}

impl View for Options {
    type V = OptionsModel;

    open spec fn view(&self) -> OptionsModel {
        match *self {
            Options::Url { url } => OptionsModel::Url { url: url@ },
            Options::Register { manager, command } => OptionsModel::Register {
                manager: manager@,
                command: command@,
            },
            Options::Deregister { manager } => OptionsModel::Deregister { manager: manager@ },
            Options::Assign { manager, game } => OptionsModel::Assign {
                manager: manager@,
                game: game@,
            },
            Options::Pipe { manager, pipe } => OptionsModel::Pipe { manager: manager@, pipe: pipe@ },
            Options::Install => OptionsModel::Install,
            Options::Test => OptionsModel::Test,
        }
    }
}

/// How the program is called.
pub open spec fn usage_text() -> Seq<char> {
    "Usage:\n  nxmproxy url <nxm-url>\n  nxmproxy register <manager> <command>\n  nxmproxy deregister <manager>\n  nxmproxy assign <manager> <game>\n  nxmproxy pipe <manager> <pipe>\n  nxmproxy install\n  nxmproxy test"@
}

/// How the program is called.
pub fn usage() -> (text: &'static str)
    ensures
        text@ == usage_text(),
{
    "Usage:\n  nxmproxy url <nxm-url>\n  nxmproxy register <manager> <command>\n  nxmproxy deregister <manager>\n  nxmproxy assign <manager> <game>\n  nxmproxy pipe <manager> <pipe>\n  nxmproxy install\n  nxmproxy test"
}

/// What the arguments ask for, where they ask for anything. The name of the command may be in any
/// case; it fixes the number of arguments.
pub open spec fn options_of(args: Seq<Seq<char>>) -> Option<OptionsModel> {
    let command = lowered(args[0]);
    if args.len() == 0 {
        None
    } else if command == "url"@ && args.len() == 2 {
        Some(OptionsModel::Url { url: args[1] })
    } else if command == "register"@ && args.len() == 3 {
        Some(OptionsModel::Register { manager: args[1], command: args[2] })
    } else if command == "deregister"@ && args.len() == 2 {
        Some(OptionsModel::Deregister { manager: args[1] })
    } else if command == "assign"@ && args.len() == 3 {
        Some(OptionsModel::Assign { manager: args[1], game: args[2] })
    } else if command == "pipe"@ && args.len() == 3 {
        Some(OptionsModel::Pipe { manager: args[1], pipe: args[2] })
    } else if command == "install"@ && args.len() == 1 {
        Some(OptionsModel::Install)
    } else if command == "test"@ && args.len() == 1 {
        Some(OptionsModel::Test)
    } else {
        None
    }
}

/// Reads the arguments that follow the name of the program.
pub fn parse_options(args: &Vec<String>) -> (out: Result<Options, String>)
    ensures
        match (out, options_of(texts(args@))) {
            (Ok(options), Some(o)) => options@ == o,
            (Err(message), None) => message@ == usage_text(),
            _ => false,
        },
        out matches Ok(options) ==> match options {
            Options::Url { url } => {
                &&& args@.len() == 2 && lowered(args@[0]@) == "url"@
                &&& url@ == args@[1]@
            },
            Options::Register { manager, command } => {
                &&& args@.len() == 3 && lowered(args@[0]@) == "register"@
                &&& manager@ == args@[1]@ && command@ == args@[2]@
            },
            Options::Deregister { manager } => {
                &&& args@.len() == 2 && lowered(args@[0]@) == "deregister"@
                &&& manager@ == args@[1]@
            },
            Options::Assign { manager, game } => {
                &&& args@.len() == 3 && lowered(args@[0]@) == "assign"@
                &&& manager@ == args@[1]@ && game@ == args@[2]@
            },
            Options::Pipe { manager, pipe } => {
                &&& args@.len() == 3 && lowered(args@[0]@) == "pipe"@
                &&& manager@ == args@[1]@ && pipe@ == args@[2]@
            },
            Options::Install => args@.len() == 1 && lowered(args@[0]@) == "install"@,
            Options::Test => args@.len() == 1 && lowered(args@[0]@) == "test"@,
        },
        out is Err ==> args@.len() == 0 || args@.len() > 3 || (args@.len() == 1 && lowered(
            args@[0]@,
        ) != "install"@ && lowered(args@[0]@) != "test"@) || (args@.len() == 2 && lowered(
            args@[0]@,
        ) != "url"@ && lowered(args@[0]@) != "deregister"@) || (args@.len() == 3 && lowered(
            args@[0]@,
        ) != "register"@ && lowered(args@[0]@) != "assign"@ && lowered(args@[0]@) != "pipe"@),
{
    proof {
        lemma_command_names();
        assert(texts(args@).len() == args@.len());
        assert forall|i: int| 0 <= i < args@.len() implies texts(args@)[i] == args@[i]@ by {}
    }
    let n = args.len();
    if n == 0 {
        return Err(usage().to_owned());
    }
    let lower = to_lower(args[0].as_str());
    let command = lower.as_str();
    if same_text(command, "url") && n == 2 {
        Ok(Options::Url { url: args[1].clone() })
    } else if same_text(command, "register") && n == 3 {
        Ok(Options::Register { manager: args[1].clone(), command: args[2].clone() })
    } else if same_text(command, "deregister") && n == 2 {
        Ok(Options::Deregister { manager: args[1].clone() })
    } else if same_text(command, "assign") && n == 3 {
        Ok(Options::Assign { manager: args[1].clone(), game: args[2].clone() })
    } else if same_text(command, "pipe") && n == 3 {
        Ok(Options::Pipe { manager: args[1].clone(), pipe: args[2].clone() })
    } else if same_text(command, "install") && n == 1 {
        Ok(Options::Install)
    } else if same_text(command, "test") && n == 1 {
        Ok(Options::Test)
    } else {
        Err(usage().to_owned())
    }
}

/// What is left to do with the outside world.
#[derive(Debug)]
pub enum Task {
    /// Hand this link to its manager.
    Download { url: String },
    /// Save the configuration.
    Save,
    /// Become the handler of links.
    Install,
    /// Tell whether the program is the handler of links.
    Test,
}

/// Goes on when the directory of the program is there; gives up, with a message, when it could not
/// be made.
pub fn after_directory(made: Result<(), String>) -> (out: Result<(), String>)
    ensures
        match (made, out) {
            (Ok(_), Ok(_)) => true,
            (Err(reason), Err(message)) => message@ == "Failed to create project directory: "@
                + reason@,
            _ => false,
        },
{
    match made {
        Ok(_) => Ok(()),
        Err(reason) => {
            let mut message: String = "Failed to create project directory: ".to_owned();
            message.append(reason.as_str());
            Err(message)
        },
    }
}

/// Goes on with the configuration that was read; gives up, with a message, when there is none.
pub fn after_read(read: Result<Config, ConfigError>) -> (out: Result<Config, String>)
    ensures
        match (read, out) {
            (Ok(config), Ok(c)) => c == config,
            (Err(error), Err(message)) => message@ == "Failed to read config: "@ + fault_message(
                error@,
            ),
            _ => false,
        },
        read matches Err(error) ==> out->Err_0@ == "Failed to read config: "@ + (match error {
            ConfigError::InvalidLine(line) => "Invalid config line: "@ + line@,
            ConfigError::OutsideSection => "Key/value outside of known section"@,
            ConfigError::TooLarge => "config file too large"@,
            ConfigError::Unreadable(reason) => reason@,
        }),
{
    match read {
        Ok(config) => Ok(config),
        Err(error) => {
            let mut message: String = "Failed to read config: ".to_owned();
            message.append(error.message().as_str());
            Err(message)
        },
    }
}

/// What came of a task that did not fail.
#[derive(Clone, Copy, PartialEq, Eq, Structural, Debug)]
pub enum Outcome {
    /// It is done.
    Done,
    /// Whether the program is the handler of links.
    Tested { installed: bool },
}

/// The answer of the program when it was asked whether it is the handler of links.
pub fn installed_line(installed: bool) -> (line: String)
    ensures
        line@ == (if installed {
            "is installed: true"@
        } else {
            "is installed: false"@
        }),
{
    if installed {
        "is installed: true".to_owned()
    } else {
        "is installed: false".to_owned()
    }
}

/// The code that the program exits with: 0 when all went well and, where that was asked, the
/// program is the handler of links; 1 otherwise.
pub fn exit_code(outcome: Result<Outcome, String>) -> (code: i32)
    ensures
        code == 0 || code == 1,
        code == 0 <==> (outcome == Ok::<Outcome, String>(Outcome::Done) || outcome == Ok::<
            Outcome,
            String,
        >(Outcome::Tested { installed: true })),
{
    match outcome {
        Ok(Outcome::Done) => 0,
        Ok(Outcome::Tested { installed }) => if installed {
            0
        } else {
            1
        },
        Err(_) => 1,
    }
}

/// Carries out what concerns the configuration alone, and tells what is left to do.
/// A configuration that was changed is to be saved.
pub fn main_impl(opt: Options, config: &mut Config) -> (out: Result<Task, String>)
    ensures
        match opt@ {
            OptionsModel::Url { url } => {
                &&& out matches Ok(Task::Download { url: u }) && u@ == url
                &&& final(config)@ == old(config)@
            },
            OptionsModel::Assign { manager, game } => {
                &&& out == Ok::<Task, String>(Task::Save)
                &&& final(config)@ == assigned(old(config)@, manager, game)
            },
            OptionsModel::Register { manager, command } => {
                &&& out == Ok::<Task, String>(Task::Save)
                &&& final(config)@ == registered(old(config)@, manager, command)
            },
            OptionsModel::Deregister { manager } => {
                &&& out == Ok::<Task, String>(Task::Save)
                &&& final(config)@ == deregistered(old(config)@, manager)
            },
            OptionsModel::Pipe { manager, pipe } => match pipe_refusal(
                old(config)@,
                manager,
                pipe,
            ) {
                None => {
                    &&& out == Ok::<Task, String>(Task::Save)
                    &&& final(config)@ == piped(old(config)@, manager, pipe)
                },
                Some(reason) => {
                    &&& out matches Err(message) && message@ == reason
                    &&& final(config)@ == old(config)@
                },
            },
            OptionsModel::Install => {
                &&& out == Ok::<Task, String>(Task::Install)
                &&& final(config)@ == old(config)@
            },
            OptionsModel::Test => {
                &&& out == Ok::<Task, String>(Task::Test)
                &&& final(config)@ == old(config)@
            },
        },
        match opt {
            Options::Url { url } => out == Ok::<Task, String>(Task::Download { url }),
            Options::Register { manager, command } => out is Ok && final(config).managers@ == old(
                config,
            ).managers@.insert(manager@, command@),
            Options::Deregister { manager } => out is Ok && final(config).managers@ == old(
                config,
            ).managers@.remove(manager@) && final(config).pipes@ == old(config).pipes@.remove(
                manager@,
            ),
            Options::Assign { manager, game } => out is Ok && final(config).games@ == old(
                config,
            ).games@.insert(game@, manager@),
            Options::Pipe { manager, pipe } => out is Ok ==> final(config).pipes@ == old(
                config,
            ).pipes@.insert(manager@, pipe@),
            Options::Install => out == Ok::<Task, String>(Task::Install),
            Options::Test => out == Ok::<Task, String>(Task::Test),
        },
        !(opt is Assign) ==> final(config).games@ == old(config).games@,
        !(opt is Register) && !(opt is Deregister) ==> final(config).managers@ == old(
            config,
        ).managers@,
        !(opt is Pipe) && !(opt is Deregister) ==> final(config).pipes@ == old(config).pipes@,
        out is Err ==> opt is Pipe && final(config).pipes@ == old(config).pipes@,
{
    match opt {
        Options::Url { url } => Ok(Task::Download { url }),
        Options::Assign { manager, game } => match config.assign(manager.as_str(), game.as_str()) {
            Ok(_) => Ok(Task::Save),
            Err(message) => Err(message),
        },
        Options::Register { manager, command } => match config.register(
            manager.as_str(),
            command.as_str(),
        ) {
            Ok(_) => Ok(Task::Save),
            Err(message) => Err(message),
        },
        Options::Pipe { manager, pipe } => match config.register_pipe(
            manager.as_str(),
            pipe.as_str(),
        ) {
            Ok(_) => Ok(Task::Save),
            Err(message) => Err(message),
        },
        Options::Deregister { manager } => match config.deregister(manager.as_str()) {
            Ok(_) => Ok(Task::Save),
            Err(message) => Err(message),
        },
        Options::Install => Ok(Task::Install),
        Options::Test => Ok(Task::Test),
    }
}

/// The name of a command is read the same in any case.
pub proof fn law_command_in_any_case(args: Seq<Seq<char>>, spelling: Seq<char>)
    requires
        args.len() > 0,
        lowered(spelling) == lowered(args[0]),
    ensures
        options_of(args.update(0, spelling)) == options_of(args),
{
}

/// No command has the name of another.
proof fn lemma_command_names()
    ensures
        "url"@ != "deregister"@,
        "register"@ != "assign"@,
        "register"@ != "pipe"@,
        "assign"@ != "pipe"@,
        "install"@ != "test"@,
{
    reveal_strlit("url");
    reveal_strlit("register");
    reveal_strlit("deregister");
    reveal_strlit("assign");
    reveal_strlit("pipe");
    reveal_strlit("install");
    reveal_strlit("test");
    assert("url"@.len() == 3 && "deregister"@.len() == 10);
    assert("register"@.len() == 8 && "assign"@.len() == 6 && "pipe"@.len() == 4);
    assert("install"@.len() == 7 && "test"@.len() == 4);
}

/// Every command takes its arguments as they are given, character for character: of all arguments
/// only the name of the command is read in any case.
pub proof fn law_arguments_are_taken_as_given(args: Seq<Seq<char>>)
    requires
        args.len() > 0,
    ensures
        args.len() == 2 && lowered(args[0]) == "url"@ ==> options_of(args) == Some(
            OptionsModel::Url { url: args[1] },
        ),
        args.len() == 3 && lowered(args[0]) == "register"@ ==> options_of(args) == Some(
            OptionsModel::Register { manager: args[1], command: args[2] },
        ),
        args.len() == 2 && lowered(args[0]) == "deregister"@ ==> options_of(args) == Some(
            OptionsModel::Deregister { manager: args[1] },
        ),
        args.len() == 3 && lowered(args[0]) == "assign"@ ==> options_of(args) == Some(
            OptionsModel::Assign { manager: args[1], game: args[2] },
        ),
        args.len() == 3 && lowered(args[0]) == "pipe"@ ==> options_of(args) == Some(
            OptionsModel::Pipe { manager: args[1], pipe: args[2] },
        ),
        args.len() == 1 && lowered(args[0]) == "install"@ ==> options_of(args) == Some(
            OptionsModel::Install,
        ),
        args.len() == 1 && lowered(args[0]) == "test"@ ==> options_of(args) == Some(
            OptionsModel::Test,
        ),
{
    lemma_command_names();
}

/// Nothing is asked for by no arguments, by more than three, or by a name that is none of a command
/// with this number of arguments.
pub proof fn law_which_arguments_ask_for_nothing(args: Seq<Seq<char>>)
    ensures
        args.len() == 0 || args.len() > 3 ==> options_of(args) is None,
        args.len() == 1 && lowered(args[0]) != "install"@ && lowered(args[0]) != "test"@
            ==> options_of(args) is None,
        args.len() == 2 && lowered(args[0]) != "url"@ && lowered(args[0]) != "deregister"@
            ==> options_of(args) is None,
        args.len() == 3 && lowered(args[0]) != "register"@ && lowered(args[0]) != "assign"@
            && lowered(args[0]) != "pipe"@ ==> options_of(args) is None,
{
}

} // verus!
