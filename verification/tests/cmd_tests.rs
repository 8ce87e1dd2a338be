use prmn::cmd::{effective_out, last_target, parse_invocation, ArgError, Commands, FlagsOutcome, Invocation, Subcommand};

fn args(v: &[&str]) -> Vec<String> {
    v.iter().map(|s| s.to_string()).collect()
}

fn run(v: &[&str]) -> Option<(Subcommand, bool, bool)> {
    match parse_invocation(&args(v)) {
        Invocation::Run { sub, cmd } => Some((sub, cmd.out, cmd.no_last)),
        _ => None,
    }
}

#[test]
fn no_arguments_show_the_menu() {
    assert!(run(&[]) == Some((Subcommand::Menu, false, false)));
}

#[test]
fn flags_without_subcommand() {
    assert!(run(&["-o"]) == Some((Subcommand::Menu, true, false)));
    assert!(run(&["--out", "--no-last"]) == Some((Subcommand::Menu, true, true)));
    assert!(run(&["-n"]) == Some((Subcommand::Menu, false, true)));
}

#[test]
fn subcommands_and_aliases() {
    assert!(run(&["last"]) == Some((Subcommand::Last, false, false)));
    assert!(run(&["l", "-n"]) == Some((Subcommand::Last, false, true)));
    assert!(run(&["-o", "find"]) == Some((Subcommand::Find, true, false)));
    assert!(run(&["f", "--out"]) == Some((Subcommand::Find, true, false)));
}

#[test]
fn help_words_and_flags() {
    for v in [&["help"][..], &["?"][..], &["-o", "help"][..]] {
        assert!(matches!(parse_invocation(&args(v)), Invocation::Help), "{:?}", v);
    }
    for v in [&["--help"][..], &["-h"][..], &["-?"][..], &["last", "--?"][..], &["-o", "-help"][..]] {
        assert!(matches!(parse_invocation(&args(v)), Invocation::FlagHelp), "{:?}", v);
    }
}

#[test]
fn unknown_flag_is_reported_without_dashes() {
    match parse_invocation(&args(&["l", "--verbose"])) {
        Invocation::Fail(ArgError::InvalidFlag(s)) => assert_eq!(s, "verbose"),
        _ => panic!("expected an invalid flag"),
    }
    match parse_invocation(&args(&["-x"])) {
        Invocation::Fail(ArgError::InvalidFlag(s)) => assert_eq!(s, "x"),
        _ => panic!("expected an invalid flag"),
    }
}

#[test]
fn unknown_word_is_too_many_arguments() {
    assert!(matches!(parse_invocation(&args(&["foo"])), Invocation::Fail(ArgError::TooManyArguments)));
    assert!(matches!(parse_invocation(&args(&["-o", "junk"])), Invocation::Fail(ArgError::TooManyArguments)));
}

#[test]
fn word_after_double_dash_is_the_subcommand() {
    // `--` stays among the flags, where it is no known flag.
    match parse_invocation(&args(&["--", "last"])) {
        Invocation::Fail(ArgError::InvalidFlag(s)) => assert_eq!(s, ""),
        _ => panic!("expected an invalid flag"),
    }
}

#[test]
fn triple_dash_ends_flag_reading() {
    assert!(run(&["-o", "---"]) == Some((Subcommand::Menu, true, false)));
    match Commands::from_args(&args(&["---", "anything"])) {
        FlagsOutcome::Parsed(c) => assert!(!c.out && !c.no_last),
        _ => panic!("expected flags"),
    }
}

#[test]
fn output_goes_to_stdout_when_not_a_terminal() {
    assert!(effective_out(false, false));
    assert!(effective_out(true, true));
    assert!(!effective_out(false, true));
}

#[test]
fn last_opens_only_an_existing_directory() {
    assert_eq!(last_target(&Some("/p/x".to_string()), true), Some("/p/x".to_string()));
    assert_eq!(last_target(&Some("/p/x".to_string()), false), None);
    assert_eq!(last_target(&None, true), None);
}
