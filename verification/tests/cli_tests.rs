use upsurge::cli::{
    check_exiting_options, parse_config, parse_connexion_lines, parse_connexions,
    read_command_line, split_connexions, usage, CommandLine, ExitingOption, commands_file_format,
    connexions_file_format,
};
use upsurge::upsurge::config::{Config, Deployment, Method, Output, Recap};

fn args(list: &[&str]) -> Vec<String> {
    list.iter().map(|s| s.to_string()).collect()
}

#[test]
fn reads_options_and_flags() {
    let c = read_command_line(&args(&["upsurge", "-c", "u@h:1,bad", "-k", "ls", "-D", "--output", "out.txt"])).unwrap();
    assert_eq!(c.connexion.as_deref(), Some("u@h:1,bad"));
    assert_eq!(c.command.as_deref(), Some("ls"));
    assert_eq!(c.output.as_deref(), Some("out.txt"));
    assert!(c.deploy);
    assert!(!c.threaded && !c.help && !c.version && !c.default);
    assert!(c.recap.is_none() && c.connexions_file.is_none() && c.commands_file.is_none());
    assert_eq!(check_exiting_options(&c), None);
}

#[test]
fn reads_long_names_and_helpers() {
    let c = read_command_line(&args(&["upsurge", "--connexions", "machines.txt", "--commands", "commands.txt", "--Khelp", "-T", "-r", "recap.txt"])).unwrap();
    assert_eq!(c.connexions_file.as_deref(), Some("machines.txt"));
    assert_eq!(c.commands_file.as_deref(), Some("commands.txt"));
    assert_eq!(c.recap.as_deref(), Some("recap.txt"));
    assert!(c.commands_help && c.threaded && !c.connexions_help);
    assert_eq!(check_exiting_options(&c), Some(ExitingOption::CommandsHelp));
}

#[test]
fn refuses_bad_command_lines() {
    assert!(read_command_line(&args(&["upsurge", "-z"])).is_err());
    assert!(read_command_line(&args(&["upsurge", "-k"])).is_err());
    assert!(read_command_line(&args(&["upsurge", "-k", "a", "-k", "b"])).is_err());
    assert!(read_command_line(&args(&["upsurge", "--help=x"])).is_err());
}

#[test]
fn exiting_options_in_order() {
    let c = read_command_line(&args(&["upsurge", "-d", "-v", "-h", "--Chelp"])).unwrap();
    assert_eq!(check_exiting_options(&c), Some(ExitingOption::Help));
    let c = read_command_line(&args(&["upsurge", "-d", "-v", "--Chelp"])).unwrap();
    assert_eq!(check_exiting_options(&c), Some(ExitingOption::Version));
    let c = read_command_line(&args(&["upsurge", "-d", "--Chelp"])).unwrap();
    assert_eq!(check_exiting_options(&c), Some(ExitingOption::Default));
    let c = read_command_line(&args(&["upsurge", "--Chelp"])).unwrap();
    assert_eq!(check_exiting_options(&c), Some(ExitingOption::ConnexionsHelp));
}

#[test]
fn usage_text() {
    let u = usage("upsurge");
    assert!(u.starts_with("Usage: upsurge FILE [options]\n\nOptions:\n"));
    assert!(u.contains("--connexion USER@IP:PORT"));
    assert!(u.contains("--Khelp"));
    assert!(u.ends_with('\n'));
    assert_eq!(u, getopts_table().usage("Usage: upsurge FILE [options]"));
}

/// The command-line options, declared directly with `getopts`.
fn getopts_table() -> getopts::Options {
    let mut opts = getopts::Options::new();
    opts.optopt("o", "output", "Set output file name", "FILENAME");
    opts.optopt("c", "connexion", "Remote hosts connexion information, comma separated", "USER@IP:PORT");
    opts.optopt("C", "connexions", "Remote hosts connexion information file", "FILE");
    opts.optopt("k", "command", "Command to execute on remote machine", "COMMAND");
    opts.optopt("K", "commands", "File containing commands to execute on remote machine", "FILE");
    opts.optopt("r", "recap", "Generates recap of remote executions & performances", "FILENAME");
    opts.optflag("h", "help", "Print help menu");
    opts.optflag("", "Khelp", "Print commands required file formatting");
    opts.optflag("", "Chelp", "Print connexions required file formatting");
    opts.optflag("v", "version", "Print current version");
    opts.optflag("d", "default", "Print default UpSurge configuration");
    opts.optflag("D", "deploy", "Activate autodeployment mode");
    opts.optflag("T", "threaded", "Set execution to threaded");
    opts
}

#[test]
fn command_line_reads_what_getopts_parses() {
    let lists: [&[&str]; 5] = [
        &["upsurge", "-c", "u@h:1", "-T", "x"],
        &["upsurge", "--commands=cmds.txt", "-Dr", "recap"],
        &["upsurge", "-k"],
        &["upsurge", "--nope"],
        &["upsurge", "-h", "--", "-v"],
    ];
    for list in lists {
        let ours = read_command_line(&args(list));
        let theirs = getopts_table().parse(&list[1..]);
        assert_eq!(ours.is_ok(), theirs.is_ok());
        if let (Ok(c), Ok(m)) = (ours, theirs) {
            assert_eq!(c.connexion, m.opt_str("c"));
            assert_eq!(c.commands_file, m.opt_str("K"));
            assert_eq!(c.recap, m.opt_str("r"));
            assert_eq!(c.threaded, m.opt_present("T"));
            assert_eq!(c.deploy, m.opt_present("D"));
            assert_eq!(c.help, m.opt_present("h"));
            assert_eq!(c.version, m.opt_present("v"));
        }
    }
}

#[test]
fn file_format_texts() {
    assert_eq!(
        commands_file_format(),
        "Commands file: one command per line; each line is run as it is on every remote machine.\nExample:\nls\nmkdir test\n"
    );
    assert_eq!(
        connexions_file_format(),
        "Connexions file: one remote machine per line, written USER@IP:PORT.\nExample:\nremoteMachine1@165.165.165.165:8080\n"
    );
}

#[test]
fn connexion_list() {
    let (good, bad) = parse_connexions("u@h:1,bad,v@w:2");
    assert_eq!(good.len(), 2);
    assert_eq!(good[0].ssh_format(), "ssh://u@h:1");
    assert_eq!(good[1].ssh_format(), "ssh://v@w:2");
    assert_eq!(bad, vec!["bad".to_string()]);
    let (good, bad) = parse_connexions("");
    assert!(good.is_empty());
    assert_eq!(bad, vec!["".to_string()]);
    assert_eq!(split_connexions("a,b"), vec!["a".to_string(), "b".to_string()]);
}

#[test]
fn connexion_lines() {
    let lines: Vec<String> = args(&[
        "remoteMachine1@165.165.165.165:8080",
        "remoteMachine2@165.165.165.165:8080",
        "# comment",
        "remoteMachine3@165.165.165.165:8080",
    ]);
    let (good, bad) = parse_connexion_lines(&lines);
    assert_eq!(good.len(), 3);
    assert_eq!(good[2].ssh_format(), "ssh://remoteMachine3@165.165.165.165:8080");
    assert_eq!(bad, vec!["# comment".to_string()]);
}

fn plain_command_line() -> CommandLine {
    read_command_line(&args(&["upsurge"])).unwrap()
}

#[test]
fn default_config_when_no_option() {
    let p = parse_config(plain_command_line(), &Vec::new(), Ok(Vec::new())).unwrap();
    assert!(matches!(p.config.method, Method::ASYNC));
    assert!(matches!(p.config.deployment, Deployment::NODEPLOY));
    assert!(matches!(p.config.recap, Recap::NORECAP));
    assert!(matches!(p.config.output, Output::NOOUTPUT));
    assert!(p.connexions.is_empty() && p.commands.is_empty());
    let d = Config::default();
    assert!(matches!(d.method, Method::ASYNC) && matches!(d.output, Output::NOOUTPUT));
}

#[test]
fn config_from_options_and_files() {
    let c = read_command_line(&args(&[
        "upsurge", "-c", "a@b:1,oops", "-C", "machines.txt", "-k", "ls", "-K", "commands.txt", "-o", "out", "-r", "rec", "-D", "-T",
    ]))
    .unwrap();
    let file_lines = args(&["c@d:2", "nope"]);
    let commands = args(&["mkdir test", "cd test"]);
    let p = parse_config(c, &file_lines, Ok(commands)).unwrap();
    assert!(matches!(p.config.method, Method::THREADED));
    assert!(matches!(p.config.deployment, Deployment::AUTODEPLOY));
    assert!(matches!(&p.config.recap, Recap::RECAP(r) if r == "rec"));
    assert!(matches!(&p.config.output, Output::OUTPUT(o) if o == "out"));
    let dests: Vec<String> = p.connexions.iter().map(|c| c.ssh_format()).collect();
    assert_eq!(dests, vec!["ssh://a@b:1".to_string(), "ssh://c@d:2".to_string()]);
    assert_eq!(p.rejected, vec!["oops".to_string()]);
    assert_eq!(p.rejected_lines, vec!["nope".to_string()]);
    assert_eq!(p.commands, args(&["ls", "mkdir test", "cd test"]));
}

#[test]
fn files_are_ignored_without_their_options() {
    let p = parse_config(plain_command_line(), &args(&["c@d:2"]), Ok(args(&["ls"]))).unwrap();
    assert!(p.connexions.is_empty() && p.commands.is_empty() && p.rejected_lines.is_empty());
    let p = parse_config(plain_command_line(), &Vec::new(), Err("unreadable".to_string())).unwrap();
    assert!(p.commands.is_empty());
}

#[test]
fn unreadable_commands_file_is_the_error() {
    let c = read_command_line(&args(&["upsurge", "-K", "missing.txt"])).unwrap();
    let r = parse_config(c, &Vec::new(), Err("No such file or directory (os error 2)".to_string()));
    assert_eq!(r.err(), Some("No such file or directory (os error 2)".to_string()));
}

#[test]
fn free_arguments_give_no_option() {
    for list in [&["upsurge"][..], &["upsurge", "x", "-", "machines.txt"][..]] {
        let c = read_command_line(&args(list)).unwrap();
        assert!(c.output.is_none() && c.recap.is_none() && c.connexion.is_none());
        assert!(c.connexions_file.is_none() && c.command.is_none() && c.commands_file.is_none());
        assert!(!c.help && !c.version && !c.default && !c.commands_help && !c.connexions_help);
        assert!(!c.deploy && !c.threaded);
        assert_eq!(check_exiting_options(&c), None);
    }
}
