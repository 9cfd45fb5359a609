//! The argument surface.

use vstd::prelude::*;

use crate::text::{same_text, texts};

verus! {

/// The command line: one subcommand.
#[derive(Debug)]
pub struct Cli {
    pub command: Command,
}

/// What cloakroom is asked to do.
#[derive(Debug, Clone, Copy, PartialEq, Eq, Structural)]
pub enum Command {
    /// Create the configuration and add the managed include to the global
    /// gitconfig.
    Init,
    /// Validate the TOML and generate native Git configuration.
    Apply,
    /// Explain the effective identity in the current repository.
    Status,
    /// Detect invalid configuration, conflicts, and unexpected identities.
    Doctor,
}

/// A subcommand with its line of help.
#[derive(Debug)]
pub struct Subcommand {
    pub name: &'static str,
    pub about: &'static str,
}

/// The name that selects a command.
pub open spec fn command_name(command: Command) -> Seq<char> {
    match command {
        Command::Init => "init"@,
        Command::Apply => "apply"@,
        Command::Status => "status"@,
        Command::Doctor => "doctor"@,
    }
}

/// The names of a list of subcommands.
pub open spec fn subcommand_names(list: Seq<Subcommand>) -> Seq<Seq<char>> {
    list.map_values(|command: Subcommand| command.name@)
}

/// The lines of help of a list of subcommands.
pub open spec fn subcommand_abouts(list: Seq<Subcommand>) -> Seq<Seq<char>> {
    list.map_values(|command: Subcommand| command.about@)
}

/// The subcommand that `arguments` select, the program's own name first: one
/// of `names`, with nothing behind it but at most the mark that ends options.
pub open spec fn selected(arguments: Seq<Seq<char>>, names: Seq<Seq<char>>) -> Option<Seq<char>> {
    if arguments.len() >= 2 && names.contains(arguments[1]) && (arguments.len() == 2 || (
    arguments.len() == 3 && arguments[2] == "--"@)) {
        Some(arguments[1])
    } else {
        None
    }
}

/// Whether `word` can name a subcommand: it is not empty and does not look like
/// an option.
pub open spec fn plain_word(word: Seq<char>) -> bool {
    word.len() > 0 && word[0] != '-'
}

/// Whether nothing in `arguments` asks for help or for the version: no option,
/// and not the subcommand that clap keeps for help.
pub open spec fn asks_nothing(arguments: Seq<Seq<char>>) -> bool {
    &&& arguments.len() >= 2 ==> arguments[1] != "help"@
    &&& forall|i: int|
        1 <= i < arguments.len() && (#[trigger] arguments[i]).len() > 0 ==> arguments[i][0] != '-'
}

/// Whether `arguments` ask for help or for the version and for nothing else.
pub open spec fn asks_for_help(arguments: Seq<Seq<char>>) -> bool {
    &&& arguments.len() == 2
    &&& arguments[1] == "help"@ || arguments[1] == "--help"@ || arguments[1] == "-h"@
        || arguments[1] == "--version"@ || arguments[1] == "-V"@
}

/// Why there is no command: what to print, and whether it is a mistake or the
/// help or version that was asked for.
#[derive(Debug)]
pub struct Refusal {
    pub message: String,
    pub mistake: bool,
}

impl Refusal {
    /// The exit code that goes with the message.
    pub fn exit_code(&self) -> (result: u8)
        ensures
            result == (if self.mistake {
                2u8
            } else {
                0u8
            }),
    {
        if self.mistake {
            2
        } else {
            0
        }
    }
}

/// What `clap::Command::try_get_matches_from` answers to `arguments` that
/// select none of the subcommands `names`, whose lines of help are `abouts`:
/// its message, and whether that belongs on the error stream.
pub uninterp spec fn clap_refusal(
    program: Seq<char>,
    version: Seq<char>,
    about: Seq<char>,
    names: Seq<Seq<char>>,
    abouts: Seq<Seq<char>>,
    arguments: Seq<Seq<char>>,
) -> (Seq<char>, bool);

/// Parses with `clap::Command::try_get_matches_from`, for a program that has
/// the given subcommands, none with arguments of its own, and needs one of
/// them. Trusted: which subcommand is selected and when there is one. Help,
/// the version and every mistake come back as clap's message with whether it
/// belongs on the error stream, both of which depend on what is passed here
/// alone; it does belong there where nothing asks for help or for the version,
/// and does not where that is all there is.
#[verifier::external_body]
fn select(
    program: &'static str,
    version: &'static str,
    about: &'static str,
    commands: Vec<Subcommand>,
    arguments: Vec<String>,
) -> (result: Result<String, (String, bool)>)
    requires
        commands@.len() > 0,
        subcommand_names(commands@).no_duplicates(),
        !subcommand_names(commands@).contains("help"@),
        forall|i: int|
            0 <= i < commands@.len() ==> plain_word((#[trigger] commands@[i]).name@),
    ensures
        result is Ok <==> selected(texts(arguments@), subcommand_names(commands@)) is Some,
        result matches Ok(name) ==> Some(name@) == selected(
            texts(arguments@),
            subcommand_names(commands@),
        ),
        result matches Err((message, error_stream)) ==> (message@, error_stream) == clap_refusal(
            program@,
            version@,
            about@,
            subcommand_names(commands@),
            subcommand_abouts(commands@),
            texts(arguments@),
        ),
        result matches Err((_, error_stream)) ==> asks_nothing(texts(arguments@)) ==> error_stream,
        result matches Err((_, error_stream)) ==> asks_for_help(texts(arguments@))
            ==> !error_stream,
{
    let parser = clap::Command::new(program)
        .version(version)
        .about(about)
        .subcommand_required(true)
        .arg_required_else_help(true)
        .subcommands(commands.into_iter().map(|c| clap::Command::new(c.name).about(c.about)));
    match parser.try_get_matches_from(arguments) {
        Ok(matches) => Ok(matches.subcommand_name().unwrap_or_default().to_owned()),
        Err(error) => Err((error.render().to_string(), error.use_stderr())),
    }
}

/// The version that `--version` reports.
pub const VERSION: &'static str = "0.1.0";

/// The names of the four commands, in the order of the help text.
pub open spec fn all_names() -> Seq<Seq<char>> {
    seq!["init"@, "apply"@, "status"@, "doctor"@]
}

/// The help of the four commands, in the same order.
pub open spec fn all_abouts() -> Seq<Seq<char>> {
    seq![
        "Create the configuration and add the managed include to the global gitconfig"@,
        "Validate the TOML and generate native Git configuration"@,
        "Explain the effective identity in the current repository"@,
        "Detect invalid configuration, conflicts, and unexpected identities"@,
    ]
}

/// What the program says of itself.
pub const ABOUT: &'static str =
    "Context-dependent Git identities compiled to native Git conditional includes.";

/// What clap answers to `arguments` that select no command: its message, and
/// whether they are a mistake.
pub open spec fn refused(arguments: Seq<Seq<char>>) -> (Seq<char>, bool) {
    clap_refusal("cloakroom"@, VERSION@, ABOUT@, all_names(), all_abouts(), arguments)
}

/// The four commands with their help.
fn commands() -> (result: Vec<Subcommand>)
    ensures
        subcommand_names(result@) == all_names(),
        subcommand_abouts(result@) == all_abouts(),
{
    let result = vec![
        Subcommand {
            name: "init",
            about: "Create the configuration and add the managed include to the global gitconfig",
        },
        Subcommand {
            name: "apply",
            about: "Validate the TOML and generate native Git configuration",
        },
        Subcommand {
            name: "status",
            about: "Explain the effective identity in the current repository",
        },
        Subcommand {
            name: "doctor",
            about: "Detect invalid configuration, conflicts, and unexpected identities",
        },
    ];
    assert(subcommand_names(result@) == all_names());
    assert(subcommand_abouts(result@) == all_abouts());
    result
}

/// The four names differ from each other and from the one clap keeps for
/// itself.
proof fn lemma_names()
    ensures
        all_names().no_duplicates(),
        !all_names().contains("help"@),
        forall|i: int| 0 <= i < all_names().len() ==> plain_word(#[trigger] all_names()[i]),
{
    reveal_strlit("init");
    reveal_strlit("apply");
    reveal_strlit("status");
    reveal_strlit("doctor");
    reveal_strlit("help");
    assert("init"@.len() == 4 && "apply"@.len() == 5 && "status"@.len() == 6 && "doctor"@.len()
        == 6 && "help"@.len() == 4);
    assert("init"@[0] == 'i' && "help"@[0] == 'h' && "status"@[0] == 's' && "doctor"@[0] == 'd'
        && "apply"@[0] == 'a');
}

impl Cli {
    /// Reads a command line, the program's own name first.
    pub fn try_parse_from(arguments: Vec<String>) -> (result: Result<Self, Refusal>)
        ensures
            result is Ok <==> selected(texts(arguments@), all_names()) is Some,
            result matches Ok(cli) ==> Some(command_name(cli.command)) == selected(
                texts(arguments@),
                all_names(),
            ),
            result matches Err(refusal) ==> (refusal.message@, refusal.mistake) == refused(
                texts(arguments@),
            ),
            result matches Err(refusal) ==> asks_nothing(texts(arguments@)) ==> refusal.mistake,
            result matches Err(refusal) ==> asks_for_help(texts(arguments@)) ==> !refusal.mistake,
    {
        let commands = commands();
        proof {
            lemma_names();
            assert forall|i: int| 0 <= i < commands@.len() implies plain_word(
                (#[trigger] commands@[i]).name@,
            ) by {
                assert(subcommand_names(commands@)[i] == all_names()[i]);
            }
        }
        let name = match select(
            "cloakroom",
            VERSION,
            ABOUT,
            commands,
            arguments,
        ) {
            Ok(name) => name,
            Err((message, mistake)) => return Err(Refusal { message, mistake }),
        };
        let command = if same_text(name.as_str(), "init") {
            Command::Init
        } else if same_text(name.as_str(), "apply") {
            Command::Apply
        } else if same_text(name.as_str(), "status") {
            Command::Status
        } else {
            Command::Doctor
        };
        Ok(Cli { command })
    }
}

/// Each command is selected by its own name, behind any program name, and no
/// two commands share a name.
pub proof fn law_every_command_has_a_name_of_its_own(
    program: Seq<char>,
    command: Command,
    other: Command,
)
    ensures
        selected(seq![program, command_name(command)], all_names()) == Some(command_name(command)),
        command_name(command) == command_name(other) ==> command == other,
{
    lemma_names();
    let names = all_names();
    assert(names[0] == "init"@ && names[1] == "apply"@ && names[2] == "status"@ && names[3]
        == "doctor"@);
    assert(names.contains(command_name(command)));
}

/// A command is selected exactly if the first argument behind the program is
/// its name and nothing follows but, at most, a lone `--`.
pub proof fn law_what_selects_a_command(arguments: Seq<Seq<char>>, command: Command)
    ensures
        selected(arguments, all_names()) == Some(command_name(command)) <==> {
            &&& arguments.len() == 2 || (arguments.len() == 3 && arguments[2] == "--"@)
            &&& arguments[1] == match command {
                Command::Init => "init"@,
                Command::Apply => "apply"@,
                Command::Status => "status"@,
                Command::Doctor => "doctor"@,
            }
        },
        selected(arguments, all_names()) matches Some(name) ==> exists|other: Command|
            name == #[trigger] command_name(other),
{
    let names = all_names();
    assert(names[0] == command_name(Command::Init));
    assert(names[1] == command_name(Command::Apply));
    assert(names[2] == command_name(Command::Status));
    assert(names[3] == command_name(Command::Doctor));
    assert(names.contains(names[0]) && names.contains(names[1]) && names.contains(names[2])
        && names.contains(names[3]));
    if names.contains(arguments[1]) {
        let at = choose|at: int| 0 <= at < names.len() && names[at] == arguments[1];
        assert(at == 0 || at == 1 || at == 2 || at == 3);
    }
}

/// What clap is told of the program: its name, its version and what it is for,
/// and the four commands with their help.
pub proof fn law_what_the_program_says_of_itself(arguments: Seq<Seq<char>>)
    ensures
        refused(arguments) == clap_refusal(
            "cloakroom"@,
            "0.1.0"@,
            "Context-dependent Git identities compiled to native Git conditional includes."@,
            seq!["init"@, "apply"@, "status"@, "doctor"@],
            seq![
                "Create the configuration and add the managed include to the global gitconfig"@,
                "Validate the TOML and generate native Git configuration"@,
                "Explain the effective identity in the current repository"@,
                "Detect invalid configuration, conflicts, and unexpected identities"@,
            ],
            arguments,
        ),
{
}

}
