//! The command-line mode: which options exist, what the parsed options
//! mean, and how connexions and commands are gathered from them.

use vstd::prelude::*;
use crate::text::{pieces, split_pieces, texts};
use crate::upsurge::config::{Config, Deployment, Method, Output, Recap};
use crate::upsurge::connexion_info::{ConnexionInfo, connexion_of, port_fits};

verus! {

#[verifier::external_type_specification]
#[verifier::external_body]
pub struct ExOptions(getopts::Options);

#[verifier::external_type_specification]
#[verifier::external_body]
pub struct ExMatches(getopts::Matches);

#[verifier::external_type_specification]
#[verifier::external_body]
pub struct ExFail(getopts::Fail);

/// The option groups of a `getopts::Options`, in the order they were declared:
/// for each, its short name, its long name, whether it takes a value, the hint
/// naming that value, and its description.
pub uninterp spec fn option_table(o: getopts::Options) -> Seq<(Seq<char>, Seq<char>, bool, Seq<char>, Seq<char>)>;

/// The options are parsed in `getopts`' default way: every group is optional and
/// takes a value always or never, free arguments may stand among the options,
/// and long options take two dashes.
pub uninterp spec fn plain_options(o: getopts::Options) -> bool;

/// What a `getopts::Matches` holds: for each name it can be asked about, the
/// values given to that option in order (`None` for an occurrence without a value).
pub uninterp spec fn option_values(m: getopts::Matches) -> Map<Seq<char>, Seq<Option<Seq<char>>>>;

/// What `getopts` parses out of the arguments against plain options with this
/// table: the values of each option (as `option_values` gives them), or `None`
/// when parsing fails.
pub uninterp spec fn parsed_values(table: Seq<(Seq<char>, Seq<char>, bool, Seq<char>, Seq<char>)>, args: Seq<Seq<char>>) -> Option<Map<Seq<char>, Seq<Option<Seq<char>>>>>;

/// The rows of `getopts`' help text for plain options with this table, joined by
/// line breaks.
pub uninterp spec fn usage_rows(table: Seq<(Seq<char>, Seq<char>, bool, Seq<char>, Seq<char>)>) -> Seq<char>;

/// The names that an option with these short and long names defines.
pub open spec fn names_of(short: Seq<char>, long: Seq<char>) -> Set<Seq<char>> {
    (if short.len() > 0 { set![short] } else { Set::empty() }).union(
        if long.len() > 0 { set![long] } else { Set::empty() },
    )
}

/// The option names (short and long) that an option table defines.
pub open spec fn table_names(t: Seq<(Seq<char>, Seq<char>, bool, Seq<char>, Seq<char>)>) -> Set<Seq<char>>
    decreases t.len(),
{
    if t.len() == 0 {
        Set::empty()
    } else {
        table_names(t.drop_last()).union(names_of(t.last().0, t.last().1))
    }
}

/// The option names (short and long) that a `getopts::Options` defines.
pub open spec fn option_names(o: getopts::Options) -> Set<Seq<char>> {
    table_names(option_table(o))
}

proof fn lemma_table_names_push(t: Seq<(Seq<char>, Seq<char>, bool, Seq<char>, Seq<char>)>, e: (Seq<char>, Seq<char>, bool, Seq<char>, Seq<char>))
    ensures
        table_names(t.push(e)) == table_names(t).union(names_of(e.0, e.1)),
{
    assert(t.push(e).drop_last() =~= t);
}

/// Every option group of the table has a short or a long name.
pub open spec fn named_rows(t: Seq<(Seq<char>, Seq<char>, bool, Seq<char>, Seq<char>)>) -> bool {
    forall|i: int| 0 <= i < t.len() ==> (#[trigger] t[i]).0.len() > 0 || t[i].1.len() > 0
}

/// A word that `getopts` reads as an option (or as `--`): at least two
/// characters, the first `-`. Any other word is a free argument.
pub open spec fn is_option_word(w: Seq<char>) -> bool {
    w.len() > 1 && w[0] == '-'
}

/// Names that `getopts` accepts: a short name of one ASCII character or none,
/// a long name of two characters or more or none, and not both empty.
pub open spec fn valid_names(short: Seq<char>, long: Seq<char>) -> bool {
    &&& short.len() == 0 || (short.len() == 1 && (short[0] as u32) < 128)
    &&& long.len() == 0 || long.len() >= 2
    &&& short.len() > 0 || long.len() > 0
}

/// An empty set of options.
/// Calls `getopts::Options::new`, which starts with no option groups, the
/// free-floating parsing style and long options on two dashes.
#[verifier::external_body]
fn new_options() -> (r: getopts::Options)
    ensures
        option_table(r) == Seq::<(Seq<char>, Seq<char>, bool, Seq<char>, Seq<char>)>::empty(),
        plain_options(r),
{
    getopts::Options::new()
}

/// Declares an option that takes a value.
/// Calls `getopts::Options::optopt`, which pushes one optional option group with
/// these names, hint and description, taking a value; it panics on names that
/// `valid_names` excludes (and `parse` panics when both are empty).
#[verifier::external_body]
fn add_option(opts: &mut getopts::Options, short: &str, long: &str, desc: &str, hint: &str)
    requires
        valid_names(short@, long@),
    ensures
        option_table(*final(opts)) == option_table(*old(opts)).push((short@, long@, true, hint@, desc@)),
        plain_options(*final(opts)) == plain_options(*old(opts)),
{
    opts.optopt(short, long, desc, hint);
}

/// Declares a flag.
/// Calls `getopts::Options::optflag`, which pushes one optional option group with
/// these names and description, an empty hint, and no value; it panics on names
/// that `valid_names` excludes.
#[verifier::external_body]
fn add_flag(opts: &mut getopts::Options, short: &str, long: &str, desc: &str)
    requires
        valid_names(short@, long@),
    ensures
        option_table(*final(opts)) == option_table(*old(opts)).push((short@, long@, false, Seq::<char>::empty(), desc@)),
        plain_options(*final(opts)) == plain_options(*old(opts)),
{
    opts.optflag(short, long, desc);
}

/// Parses arguments against a set of options.
/// Calls `getopts::Options::parse`. Its source builds the matches from the
/// options' groups, so every defined name (and no other) can be asked about.
/// For plain options its outcome depends on the option table and the arguments
/// alone (`parsed_values`). A word that is no option word is a free argument and
/// gives no option a value, and plain options require none: so arguments without
/// option words parse with no option given. Which error comes back is not stated.
/// `parse` panics on a group with neither a short nor a long name, so every
/// group must have one.
#[verifier::external_body]
fn parse_arguments(opts: &getopts::Options, args: &Vec<String>) -> (r: Result<getopts::Matches, getopts::Fail>)
    requires
        named_rows(option_table(*opts)),
    ensures
        r matches Ok(m) ==> option_values(m).dom() == option_names(*opts),
        plain_options(*opts) ==> (r is Ok <==> parsed_values(option_table(*opts), texts(args@)) is Some),
        plain_options(*opts) ==> (r matches Ok(m) ==> parsed_values(option_table(*opts), texts(args@)) == Some(option_values(m))),
        plain_options(*opts) && (forall|i: int| 0 <= i < args@.len() ==> !is_option_word(#[trigger] args@[i]@))
            ==> (r matches Ok(m) && forall|n: Seq<char>| #[trigger] option_values(m).dom().contains(n) ==> option_values(m)[n].len() == 0),
{
    opts.parse(args)
}

/// Whether an option was given.
/// Calls `getopts::Matches::opt_present`, which is true when the option has at
/// least one value, and panics on an undefined name.
#[verifier::external_body]
fn option_present(m: &getopts::Matches, name: &str) -> (r: bool)
    requires
        option_values(*m).dom().contains(name@),
    ensures
        r == (option_values(*m)[name@].len() > 0),
{
    m.opt_present(name)
}

/// The value given to an option.
/// Calls `getopts::Matches::opt_str`, which gives the first value of the option
/// when it has one and a text, and panics on an undefined name.
#[verifier::external_body]
fn option_string(m: &getopts::Matches, name: &str) -> (r: Option<String>)
    requires
        option_values(*m).dom().contains(name@),
    ensures
        r matches Some(s) ==> option_values(*m)[name@].len() > 0 && option_values(*m)[name@][0] == Some(s@),
        r is None ==> option_values(*m)[name@].len() == 0 || option_values(*m)[name@][0] is None,
{
    m.opt_str(name)
}

/// The help text of a set of options.
/// Calls `getopts::Options::usage`, whose source writes the brief, a blank line,
/// `Options:`, one row per option group (joined by line breaks) and a final
/// newline; for plain options the rows depend on the option table alone.
#[verifier::external_body]
fn options_usage(opts: &getopts::Options, brief: &str) -> (r: String)
    ensures
        exists|rows: Seq<char>|
            r@ == brief@ + seq!['\n', '\n', 'O', 'p', 't', 'i', 'o', 'n', 's', ':', '\n'] + rows + seq!['\n'],
        plain_options(*opts) ==> r@ == brief@ + seq!['\n', '\n', 'O', 'p', 't', 'i', 'o', 'n', 's', ':', '\n']
            + usage_rows(option_table(*opts)) + seq!['\n'],
{
    opts.usage(brief)
}

/// The option names of the command line.
pub open spec fn cli_option_names() -> Set<Seq<char>> {
    set![
        "o"@, "output"@, "c"@, "connexion"@, "C"@, "connexions"@, "k"@, "command"@, "K"@,
        "commands"@, "r"@, "recap"@, "h"@, "help"@, "Khelp"@, "Chelp"@, "v"@, "version"@, "d"@,
        "default"@, "D"@, "deploy"@, "T"@, "threaded"@
    ]
}

/// The option table of the command line: short name, long name, whether it
/// takes a value, hint, description.
pub open spec fn cli_table() -> Seq<(Seq<char>, Seq<char>, bool, Seq<char>, Seq<char>)> {
    seq![
        ("o"@, "output"@, true, "FILENAME"@, "Set output file name"@),
        ("c"@, "connexion"@, true, "USER@IP:PORT"@, "Remote hosts connexion information, comma separated"@),
        ("C"@, "connexions"@, true, "FILE"@, "Remote hosts connexion information file"@),
        ("k"@, "command"@, true, "COMMAND"@, "Command to execute on remote machine"@),
        ("K"@, "commands"@, true, "FILE"@, "File containing commands to execute on remote machine"@),
        ("r"@, "recap"@, true, "FILENAME"@, "Generates recap of remote executions & performances"@),
        ("h"@, "help"@, false, Seq::<char>::empty(), "Print help menu"@),
        (""@, "Khelp"@, false, Seq::<char>::empty(), "Print commands required file formatting"@),
        (""@, "Chelp"@, false, Seq::<char>::empty(), "Print connexions required file formatting"@),
        ("v"@, "version"@, false, Seq::<char>::empty(), "Print current version"@),
        ("d"@, "default"@, false, Seq::<char>::empty(), "Print default UpSurge configuration"@),
        ("D"@, "deploy"@, false, Seq::<char>::empty(), "Activate autodeployment mode"@),
        ("T"@, "threaded"@, false, Seq::<char>::empty(), "Set execution to threaded"@),
    ]
}

/// The options of the command line.
pub fn cli_options() -> (opts: getopts::Options)
    ensures
        option_table(opts) == cli_table(),
        option_names(opts) == cli_option_names(),
        plain_options(opts),
        named_rows(option_table(opts)),
{
    proof {
        reveal_strlit("");
        reveal_strlit("o");
        reveal_strlit("output");
        reveal_strlit("c");
        reveal_strlit("connexion");
        reveal_strlit("C");
        reveal_strlit("connexions");
        reveal_strlit("k");
        reveal_strlit("command");
        reveal_strlit("K");
        reveal_strlit("commands");
        reveal_strlit("r");
        reveal_strlit("recap");
        reveal_strlit("h");
        reveal_strlit("help");
        reveal_strlit("Khelp");
        reveal_strlit("Chelp");
        reveal_strlit("v");
        reveal_strlit("version");
        reveal_strlit("d");
        reveal_strlit("default");
        reveal_strlit("D");
        reveal_strlit("deploy");
        reveal_strlit("T");
        reveal_strlit("threaded");
    }
    let mut opts = new_options();
    let ghost before = option_table(opts);
    add_option(&mut opts, "o", "output", "Set output file name", "FILENAME");
    proof {
        lemma_table_names_push(before, option_table(opts).last());
    }
    let ghost before = option_table(opts);
    add_option(
        &mut opts,
        "c",
        "connexion",
        "Remote hosts connexion information, comma separated",
        "USER@IP:PORT",
    );
    proof {
        lemma_table_names_push(before, option_table(opts).last());
    }
    let ghost before = option_table(opts);
    add_option(&mut opts, "C", "connexions", "Remote hosts connexion information file", "FILE");
    proof {
        lemma_table_names_push(before, option_table(opts).last());
    }
    let ghost before = option_table(opts);
    add_option(&mut opts, "k", "command", "Command to execute on remote machine", "COMMAND");
    proof {
        lemma_table_names_push(before, option_table(opts).last());
    }
    let ghost before = option_table(opts);
    add_option(
        &mut opts,
        "K",
        "commands",
        "File containing commands to execute on remote machine",
        "FILE",
    );
    proof {
        lemma_table_names_push(before, option_table(opts).last());
    }
    let ghost before = option_table(opts);
    add_option(
        &mut opts,
        "r",
        "recap",
        "Generates recap of remote executions & performances",
        "FILENAME",
    );
    proof {
        lemma_table_names_push(before, option_table(opts).last());
    }
    let ghost before = option_table(opts);
    add_flag(&mut opts, "h", "help", "Print help menu");
    proof {
        lemma_table_names_push(before, option_table(opts).last());
    }
    let ghost before = option_table(opts);
    add_flag(&mut opts, "", "Khelp", "Print commands required file formatting");
    proof {
        lemma_table_names_push(before, option_table(opts).last());
    }
    let ghost before = option_table(opts);
    add_flag(&mut opts, "", "Chelp", "Print connexions required file formatting");
    proof {
        lemma_table_names_push(before, option_table(opts).last());
    }
    let ghost before = option_table(opts);
    add_flag(&mut opts, "v", "version", "Print current version");
    proof {
        lemma_table_names_push(before, option_table(opts).last());
    }
    let ghost before = option_table(opts);
    add_flag(&mut opts, "d", "default", "Print default UpSurge configuration");
    proof {
        lemma_table_names_push(before, option_table(opts).last());
    }
    let ghost before = option_table(opts);
    add_flag(&mut opts, "D", "deploy", "Activate autodeployment mode");
    proof {
        lemma_table_names_push(before, option_table(opts).last());
    }
    let ghost before = option_table(opts);
    add_flag(&mut opts, "T", "threaded", "Set execution to threaded");
    proof {
        lemma_table_names_push(before, option_table(opts).last());
    }
    assert(option_names(opts) =~= cli_option_names());
    assert(option_table(opts) =~= cli_table());
    assert(named_rows(cli_table()));
    opts
}


/// The command line as the program reads it: the value of each option that takes
/// one, and whether each flag was given.
#[derive(Debug)]
pub struct CommandLine {
    /// `-o`, `--output`: the output file name.
    pub output: Option<String>,
    /// `-r`, `--recap`: the recap file name.
    pub recap: Option<String>,
    /// `-c`, `--connexion`: connexions, comma separated.
    pub connexion: Option<String>,
    /// `-C`, `--connexions`: a file of connexions, one per line.
    pub connexions_file: Option<String>,
    /// `-k`, `--command`: one command.
    pub command: Option<String>,
    /// `-K`, `--commands`: a file of commands, one per line.
    pub commands_file: Option<String>,
    /// `-h`, `--help`.
    pub help: bool,
    /// `-v`, `--version`.
    pub version: bool,
    /// `-d`, `--default`.
    pub default: bool,
    /// `--Khelp`.
    pub commands_help: bool,
    /// `--Chelp`.
    pub connexions_help: bool,
    /// `-D`, `--deploy`.
    pub deploy: bool,
    /// `-T`, `--threaded`.
    pub threaded: bool,
}

/// The text of an optional string.
pub open spec fn text_of(o: Option<String>) -> Option<Seq<char>> {
    match o {
        Some(s) => Some(s@),
        None => None,
    }
}

/// The first value given to an option, when it is a text.
pub open spec fn first_value(vals: Map<Seq<char>, Seq<Option<Seq<char>>>>, name: Seq<char>) -> Option<Seq<char>> {
    if vals[name].len() > 0 {
        vals[name][0]
    } else {
        None
    }
}

/// Whether an option was given.
pub open spec fn given(vals: Map<Seq<char>, Seq<Option<Seq<char>>>>, name: Seq<char>) -> bool {
    vals[name].len() > 0
}

/// The command line read from the values of the parsed options.
pub open spec fn reads(c: CommandLine, vals: Map<Seq<char>, Seq<Option<Seq<char>>>>) -> bool {
    &&& text_of(c.output) == first_value(vals, "o"@)
    &&& text_of(c.recap) == first_value(vals, "r"@)
    &&& text_of(c.connexion) == first_value(vals, "c"@)
    &&& text_of(c.connexions_file) == first_value(vals, "C"@)
    &&& text_of(c.command) == first_value(vals, "k"@)
    &&& text_of(c.commands_file) == first_value(vals, "K"@)
    &&& c.help == given(vals, "h"@)
    &&& c.version == given(vals, "v"@)
    &&& c.default == given(vals, "d"@)
    &&& c.commands_help == given(vals, "Khelp"@)
    &&& c.connexions_help == given(vals, "Chelp"@)
    &&& c.deploy == given(vals, "D"@)
    &&& c.threaded == given(vals, "T"@)
}

/// The command line that parsed options give.
pub fn command_line_of(m: &getopts::Matches) -> (c: CommandLine)
    requires
        option_values(*m).dom() == cli_option_names(),
    ensures
        reads(c, option_values(*m)),
{
    CommandLine {
        output: option_string(m, "o"),
        recap: option_string(m, "r"),
        connexion: option_string(m, "c"),
        connexions_file: option_string(m, "C"),
        command: option_string(m, "k"),
        commands_file: option_string(m, "K"),
        help: option_present(m, "h"),
        version: option_present(m, "v"),
        default: option_present(m, "d"),
        commands_help: option_present(m, "Khelp"),
        connexions_help: option_present(m, "Chelp"),
        deploy: option_present(m, "D"),
        threaded: option_present(m, "T"),
    }
}

/// The command line that gives no option: no value and no flag.
pub open spec fn bare_command_line(c: CommandLine) -> bool {
    &&& c.output is None && c.recap is None && c.connexion is None
    &&& c.connexions_file is None && c.command is None && c.commands_file is None
    &&& !c.help && !c.version && !c.default && !c.commands_help && !c.connexions_help
    &&& !c.deploy && !c.threaded
}

/// Reads the command line `args` (the program's name first) against the
/// command-line options: `getopts` parses the arguments after the program's
/// name, and the command line reads the values it gives; the error is the one
/// `getopts` reports. Arguments after the program's name of which none is an
/// option word (`-x`, `--x`, `--`) are all free: the command line is read, and
/// gives no option.
pub fn read_command_line(args: &Vec<String>) -> (r: Result<CommandLine, getopts::Fail>)
    requires
        args@.len() >= 1,
    ensures
        r is Ok <==> parsed_values(cli_table(), texts(args@).drop_first()) is Some,
        r matches Ok(c) ==> reads(c, parsed_values(cli_table(), texts(args@).drop_first())->Some_0),
        (forall|i: int| 1 <= i < args@.len() ==> !is_option_word(#[trigger] args@[i]@))
            ==> (r matches Ok(c) && bare_command_line(c)),
{
    let opts = cli_options();
    let mut rest: Vec<String> = Vec::new();
    let mut i: usize = 1;
    while i < args.len()
        invariant
            1 <= i <= args@.len(),
            rest@.len() == i - 1,
            forall|j: int| 0 <= j < i - 1 ==> (#[trigger] rest@[j])@ == args@[j + 1]@,
        decreases args@.len() - i,
    {
        rest.push(args[i].clone());
        i = i + 1;
    }
    proof {
        assert(texts(rest@) =~= texts(args@).drop_first());
        if forall|j: int| 1 <= j < args@.len() ==> !is_option_word(#[trigger] args@[j]@) {
            assert forall|j: int| 0 <= j < rest@.len() implies !is_option_word(#[trigger] rest@[j]@) by {
                assert(rest@[j]@ == args@[j + 1]@);
            }
        }
    }
    match parse_arguments(&opts, &rest) {
        Ok(m) => {
            let c = command_line_of(&m);
            proof {
                let vals = option_values(m);
                if forall|n: Seq<char>| #[trigger] vals.dom().contains(n) ==> vals[n].len() == 0 {
                    assert(vals.dom().contains("o"@));
                    assert(vals.dom().contains("r"@));
                    assert(vals.dom().contains("c"@));
                    assert(vals.dom().contains("C"@));
                    assert(vals.dom().contains("k"@));
                    assert(vals.dom().contains("K"@));
                    assert(vals.dom().contains("h"@));
                    assert(vals.dom().contains("v"@));
                    assert(vals.dom().contains("d"@));
                    assert(vals.dom().contains("Khelp"@));
                    assert(vals.dom().contains("Chelp"@));
                    assert(vals.dom().contains("D"@));
                    assert(vals.dom().contains("T"@));
                }
            }
            Ok(c)
        },
        Err(f) => Err(f),
    }
}

/// The options that print something and end the program at once.
#[derive(Debug, Clone, Copy, PartialEq, Eq, Structural)]
pub enum ExitingOption {
    /// `-h`: print the help text.
    Help,
    /// `-v`: print the version.
    Version,
    /// `-d`: print the default configuration.
    Default,
    /// `--Khelp`: the format of a commands file.
    CommandsHelp,
    /// `--Chelp`: the format of a connexions file.
    ConnexionsHelp,
}

/// The exiting option that takes effect: the first given of `-h`, `-v`, `-d`,
/// `--Khelp`, `--Chelp`, in that order.
pub open spec fn exiting_option_of(c: CommandLine) -> Option<ExitingOption> {
    if c.help {
        Some(ExitingOption::Help)
    } else if c.version {
        Some(ExitingOption::Version)
    } else if c.default {
        Some(ExitingOption::Default)
    } else if c.commands_help {
        Some(ExitingOption::CommandsHelp)
    } else if c.connexions_help {
        Some(ExitingOption::ConnexionsHelp)
    } else {
        None
    }
}

/// Each exiting flag selects its own option: `-h` gives the help whatever else is
/// given; `-v` the version unless `-h` is given; `-d` the default configuration
/// unless `-h` or `-v` is; `--Khelp`, then `--Chelp`, likewise; and a command
/// line without any of them gives none, so the program goes on.
pub proof fn lemma_exiting_flags_select_their_option(c: CommandLine)
    ensures
        exiting_option_of(c) == Some(ExitingOption::Help) <==> c.help,
        exiting_option_of(c) == Some(ExitingOption::Version) <==> c.version && !c.help,
        exiting_option_of(c) == Some(ExitingOption::Default) <==> c.default && !c.help && !c.version,
        exiting_option_of(c) == Some(ExitingOption::CommandsHelp) <==> c.commands_help && !c.help && !c.version
            && !c.default,
        exiting_option_of(c) == Some(ExitingOption::ConnexionsHelp) <==> c.connexions_help && !c.help && !c.version
            && !c.default && !c.commands_help,
        exiting_option_of(c) is None <==> !(c.help || c.version || c.default || c.commands_help || c.connexions_help),
{
}

/// Which exiting option the command line gives, if any.
pub fn check_exiting_options(c: &CommandLine) -> (r: Option<ExitingOption>)
    ensures
        r == exiting_option_of(*c),
{
    if c.help {
        Some(ExitingOption::Help)
    } else if c.version {
        Some(ExitingOption::Version)
    } else if c.default {
        Some(ExitingOption::Default)
    } else if c.commands_help {
        Some(ExitingOption::CommandsHelp)
    } else if c.connexions_help {
        Some(ExitingOption::ConnexionsHelp)
    } else {
        None
    }
}

/// The help text: `Usage: <program> FILE [options]`, then the rows of the
/// command-line options.
pub fn usage(program: &str) -> (r: String)
    ensures
        r@ == "Usage: "@ + program@ + " FILE [options]"@ + seq!['\n', '\n', 'O', 'p', 't', 'i', 'o', 'n', 's', ':', '\n']
            + usage_rows(cli_table()) + seq!['\n'],
{
    let opts = cli_options();
    let mut brief = String::from_str("Usage: ");
    brief.append(program);
    brief.append(" FILE [options]");
    options_usage(&opts, brief.as_str())
}

/// The required format of a commands file (`--Khelp`).
pub fn commands_file_format() -> (r: &'static str)
    ensures
        r@ == "Commands file: one command per line; each line is run as it is on every remote machine.\nExample:\nls\nmkdir test\n"@,
{
    "Commands file: one command per line; each line is run as it is on every remote machine.\nExample:\nls\nmkdir test\n"
}

/// The required format of a connexions file (`--Chelp`).
pub fn connexions_file_format() -> (r: &'static str)
    ensures
        r@ == "Connexions file: one remote machine per line, written USER@IP:PORT.\nExample:\nremoteMachine1@165.165.165.165:8080\n"@,
{
    "Connexions file: one remote machine per line, written USER@IP:PORT.\nExample:\nremoteMachine1@165.165.165.165:8080\n"
}

/// The connexions that the texts describe, in order (texts that describe none are skipped).
pub open spec fn accepted(ts: Seq<Seq<char>>) -> Seq<(Seq<char>, Seq<char>, i32)>
    decreases ts.len(),
{
    if ts.len() == 0 {
        Seq::empty()
    } else {
        let before = accepted(ts.drop_last());
        match connexion_of(ts.last()) {
            Some(c) => before.push(c),
            None => before,
        }
    }
}

/// The texts that describe no connexion, in order.
pub open spec fn rejected(ts: Seq<Seq<char>>) -> Seq<Seq<char>>
    decreases ts.len(),
{
    if ts.len() == 0 {
        Seq::empty()
    } else {
        let before = rejected(ts.drop_last());
        match connexion_of(ts.last()) {
            Some(c) => before,
            None => before.push(ts.last()),
        }
    }
}

/// The views of some connexion information.
pub open spec fn infos(v: Seq<ConnexionInfo>) -> Seq<(Seq<char>, Seq<char>, i32)> {
    v.map_values(|c: ConnexionInfo| c@)
}

/// Every text that is a connexion text has a port that fits in an `i32`.
pub open spec fn ports_fit(ts: Seq<Seq<char>>) -> bool {
    forall|i: int| 0 <= i < ts.len() ==> port_fits(#[trigger] ts[i])
}

/// The connexions that the texts describe, and the texts that describe none.
pub fn parse_connexion_lines(lines: &Vec<String>) -> (r: (Vec<ConnexionInfo>, Vec<String>))
    requires
        ports_fit(texts(lines@)),
    ensures
        infos(r.0@) == accepted(texts(lines@)),
        texts(r.1@) == rejected(texts(lines@)),
{
    let mut good: Vec<ConnexionInfo> = Vec::new();
    let mut bad: Vec<String> = Vec::new();
    let mut i: usize = 0;
    while i < lines.len()
        invariant
            i <= lines@.len(),
            ports_fit(texts(lines@)),
            infos(good@) == accepted(texts(lines@).take(i as int)),
            texts(bad@) == rejected(texts(lines@).take(i as int)),
        decreases lines@.len() - i,
    {
        let ghost prefix = texts(lines@).take(i as int);
        let ghost next = texts(lines@).take(i + 1);
        assert(next.drop_last() =~= prefix);
        assert(next.last() == lines@[i as int]@);
        assert(port_fits(texts(lines@)[i as int]));
        let line = lines[i].clone();
        match ConnexionInfo::from_formatted(line) {
            Ok(info) => {
                let ghost before = infos(good@);
                good.push(info);
                assert(infos(good@) =~= before.push(info@));
            },
            Err(_) => {
                let ghost before = texts(bad@);
                bad.push(lines[i].clone());
                assert(texts(bad@) =~= before.push(lines@[i as int]@));
            },
        }
        i = i + 1;
    }
    assert(texts(lines@).take(lines@.len() as int) =~= texts(lines@));
    (good, bad)
}

/// The connexions of a comma-separated list, and the pieces that describe none.
pub fn parse_connexions(connexions_str: &str) -> (r: (Vec<ConnexionInfo>, Vec<String>))
    requires
        ports_fit(pieces(connexions_str@, ',')),
    ensures
        infos(r.0@) == accepted(pieces(connexions_str@, ',')),
        texts(r.1@) == rejected(pieces(connexions_str@, ',')),
{
    let parts = split_connexions(connexions_str);
    parse_connexion_lines(&parts)
}

/// The pieces of a comma-separated list of connexions.
pub fn split_connexions(connexions_str: &str) -> (r: Vec<String>)
    ensures
        texts(r@) == pieces(connexions_str@, ','),
{
    split_pieces(connexions_str, ',')
}

/// What the command line asks to run: the configuration, the connexions and the
/// commands, with the connexion texts that were refused.
#[derive(Debug)]
pub struct ParsedConfig {
    pub config: Config,
    pub connexions: Vec<ConnexionInfo>,
    pub commands: Vec<String>,
    /// Pieces of `-c` that describe no connexion.
    pub rejected: Vec<String>,
    /// Lines of the `-C` file that describe no connexion.
    pub rejected_lines: Vec<String>,
}

/// The configuration that the command line sets.
pub open spec fn configured(c: CommandLine, config: Config) -> bool {
    &&& match c.output {
        Some(o) => config.output matches Output::OUTPUT(s) && s@ == o@,
        None => config.output is NOOUTPUT,
    }
    &&& match c.recap {
        Some(o) => config.recap matches Recap::RECAP(s) && s@ == o@,
        None => config.recap is NORECAP,
    }
    &&& if c.deploy {
        config.deployment is AUTODEPLOY
    } else {
        config.deployment is NODEPLOY
    }
    &&& if c.threaded {
        config.method is THREADED
    } else {
        config.method is ASYNC
    }
}

/// The texts of an option's list that contribute.
pub open spec fn when_given<T>(o: Option<String>, items: Seq<T>) -> Seq<T> {
    if o is Some {
        items
    } else {
        Seq::empty()
    }
}

/// The connexion texts of the `-c` option.
pub open spec fn inline_pieces(c: CommandLine) -> Seq<Seq<char>> {
    match c.connexion {
        Some(s) => pieces(s@, ','),
        None => Seq::empty(),
    }
}

/// Gathers what to run from the command line. `connexion_file` holds the lines of
/// the `-C` file (empty when it could not be read); `commands_file` the lines of
/// the `-K` file, or the error that reading it gave. Each is used only when its
/// option is given; a `-K` file that could not be read is the error.
pub fn parse_config(
    c: CommandLine,
    connexion_file: &Vec<String>,
    commands_file: Result<Vec<String>, String>,
) -> (r: Result<ParsedConfig, String>)
    requires
        ports_fit(inline_pieces(c)),
        c.connexions_file is Some ==> ports_fit(texts(connexion_file@)),
    ensures
        match r {
            Ok(p) => {
                &&& configured(c, p.config)
                &&& infos(p.connexions@) == accepted(inline_pieces(c)) + when_given(
                    c.connexions_file,
                    accepted(texts(connexion_file@)),
                )
                &&& texts(p.rejected@) == rejected(inline_pieces(c))
                &&& texts(p.rejected_lines@) == when_given(
                    c.connexions_file,
                    rejected(texts(connexion_file@)),
                )
                &&& texts(p.commands@) == (match c.command {
                    Some(k) => seq![k@],
                    None => Seq::empty(),
                }) + (match c.commands_file {
                    Some(_) => match commands_file {
                        Ok(v) => texts(v@),
                        Err(_) => Seq::empty(),
                    },
                    None => Seq::empty(),
                })
                &&& (c.commands_file is Some ==> commands_file is Ok)
            },
            Err(e) => c.commands_file is Some && commands_file == Err::<Vec<String>, String>(e),
        },
{
    let ghost c0 = c;
    let CommandLine { output, recap, connexion, connexions_file, command, commands_file: k_file, deploy, threaded, .. } = c;
    let config = Config {
        method: if threaded { Method::THREADED } else { Method::ASYNC },
        deployment: if deploy { Deployment::AUTODEPLOY } else { Deployment::NODEPLOY },
        recap: match recap {
            Some(p) => Recap::RECAP(p),
            None => Recap::NORECAP,
        },
        output: match output {
            Some(o) => Output::OUTPUT(o),
            None => Output::NOOUTPUT,
        },
    };
    let (mut connexions, rejected_inline) = match &connexion {
        Some(s) => parse_connexions(s.as_str()),
        None => (Vec::new(), Vec::new()),
    };
    assert(infos(connexions@) == accepted(inline_pieces(c0)));
    let mut rejected_lines: Vec<String> = Vec::new();
    if connexions_file.is_some() {
        let (mut more, bad) = parse_connexion_lines(connexion_file);
        let ghost first = infos(connexions@);
        let ghost second = infos(more@);
        connexions.append(&mut more);
        assert(infos(connexions@) =~= first + second);
        rejected_lines = bad;
    } else {
        assert(infos(connexions@) =~= infos(connexions@) + Seq::<(Seq<char>, Seq<char>, i32)>::empty());
    }
    let mut commands: Vec<String> = Vec::new();
    match command {
        Some(k) => commands.push(k),
        None => {},
    }
    let ghost first_commands = texts(commands@);
    if k_file.is_some() {
        match commands_file {
            Ok(mut lines) => {
                let ghost second = texts(lines@);
                commands.append(&mut lines);
                assert(texts(commands@) =~= first_commands + second);
            },
            Err(e) => {
                return Err(e);
            },
        }
    } else {
        assert(texts(commands@) =~= first_commands + Seq::<Seq<char>>::empty());
    }
    Ok(ParsedConfig { config, connexions, commands, rejected: rejected_inline, rejected_lines })
}

} // verus!
