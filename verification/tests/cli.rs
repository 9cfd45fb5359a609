use cloakroom::cli::{Cli, Command};

fn arguments(list: &[&str]) -> Vec<String> {
    list.iter().map(|argument| argument.to_string()).collect()
}

#[test]
fn every_subcommand_parses() {
    for (argument, expected) in [
        ("init", Command::Init),
        ("apply", Command::Apply),
        ("status", Command::Status),
        ("doctor", Command::Doctor),
    ] {
        let cli = Cli::try_parse_from(arguments(&["cloakroom", argument])).unwrap();
        assert!(
            std::mem::discriminant(&cli.command) == std::mem::discriminant(&expected),
            "{argument} parsed to the wrong command"
        );
    }
}

#[test]
fn an_unknown_subcommand_is_rejected() {
    assert!(Cli::try_parse_from(arguments(&["cloakroom", "unknown"])).is_err());
}

#[test]
fn only_a_single_subcommand_is_accepted() {
    let accepted = |list: &[&str]| Cli::try_parse_from(arguments(list)).is_ok();
    assert!(accepted(&["x", "init"]));
    assert!(accepted(&["x", "init", "--"]));
    assert!(!accepted(&[]));
    assert!(!accepted(&["init"]));
    assert!(!accepted(&["x", "--"]));
    assert!(!accepted(&["x", "--", "init"]));
    assert!(!accepted(&["x", "init", "--", "--"]));
    assert!(!accepted(&["x", "init", "-"]));
    assert!(!accepted(&["x", "init", ""]));
    assert!(!accepted(&["x", "init", "apply"]));
    assert!(!accepted(&["x", "init", "help"]));
    assert!(!accepted(&["x", ""]));
    assert!(!accepted(&["x", "ini"]));
    assert!(!accepted(&["x", "Init"]));
    assert!(!accepted(&["x", "help"]));
    assert!(!accepted(&["x", "help", "init"]));
}

#[test]
fn mistakes_are_told_apart_from_requests() {
    let refusal = |list: &[&str]| Cli::try_parse_from(arguments(list)).unwrap_err();
    let version = refusal(&["cloakroom", "--version"]);
    assert_eq!(version.message, "cloakroom 0.1.0\n");
    assert!(!version.mistake);
    assert_eq!(version.exit_code(), 0);
    let help = refusal(&["cloakroom", "--help"]);
    assert!(help.message.contains(
        "Context-dependent Git identities compiled to native Git conditional includes."
    ));
    assert!(help.message.contains("Explain the effective identity in the current repository"));
    assert!(!help.mistake);
    for word in ["help", "-h", "-V"] {
        assert!(!refusal(&["cloakroom", word]).mistake, "{word}");
    }
    for list in [
        &["cloakroom"][..],
        &[][..],
        &["cloakroom", "unknown"][..],
        &["cloakroom", "init", "help"][..],
        &["cloakroom", "init", "x"][..],
        &["cloakroom", ""][..],
    ] {
        let mistake = refusal(list);
        assert!(mistake.mistake, "{list:?}");
        assert_eq!(mistake.exit_code(), 2);
    }
}
