use cloakroom::git::GitOutput;
use cloakroom::identity::{effective_identity, parse_identity};

/// user.name appears twice, global then local, as it would for a repository
/// that overrides the identity cloakroom selected. Reporting the local one is
/// what lets doctor call that out.
#[test]
fn identity_parser_keeps_last_values_and_file_origins() {
    let bytes = b"global\0file:/profiles/a.gitconfig\0cloakroom.profile\na\0\
                  global\0file:/profiles/a.gitconfig\0user.name\nFirst\0\
                  local\0file:.git/config\0user.name\nOverride\0\
                  global\0file:/profiles/a.gitconfig\0user.email\na@b\0";
    let identity = parse_identity(bytes).unwrap();
    assert_eq!(identity.profile.unwrap().value, "a");
    let name = identity.name.unwrap();
    assert_eq!(name.value, "Override");
    assert_eq!(name.origin.as_deref(), Some(".git/config"));
    assert_eq!(identity.email.unwrap().value, "a@b");
}

#[test]
fn identity_parser_rejects_incomplete_records() {
    assert!(parse_identity(b"global\0").is_err());
    assert!(parse_identity(b"global\0file:/config\0").is_err());
}

#[test]
fn each_kind_of_incomplete_record_has_its_own_message() {
    assert_eq!(
        parse_identity(b"global").unwrap_err(),
        "git config output has no origin"
    );
    assert_eq!(
        parse_identity(b"global\0").unwrap_err(),
        "git config output has no key and value"
    );
    assert_eq!(
        parse_identity(b"global\0file:/config\0").unwrap_err(),
        "git config output has an empty key"
    );
    assert!(parse_identity(b"").unwrap().name.is_none());
}

/// A valueless key is legal in a gitconfig and reaches the listing with no
/// value field. One of them must not take the whole listing down: the keys
/// around it are still what git resolves.
#[test]
fn a_valueless_key_does_not_abort_the_listing() {
    let bytes = b"global\0file:/config\0pull.rebase\0\
                  global\0file:/profiles/a.gitconfig\0cloakroom.profile\na\0\
                  global\0file:/profiles/a.gitconfig\0user.name\nPat\0\
                  global\0file:/profiles/a.gitconfig\0user.email\na@b\0";
    let identity = parse_identity(bytes).unwrap();
    assert_eq!(identity.profile.unwrap().value, "a");
    assert_eq!(identity.name.unwrap().value, "Pat");
    assert_eq!(identity.email.unwrap().value, "a@b");
}

/// A tracked key written with no value reads as unset, and overwrites an
/// earlier scope like any other last value.
#[test]
fn a_valueless_tracked_key_reads_as_unset() {
    let bytes = b"global\0file:/profiles/a.gitconfig\0user.name\nPat\0\
                  local\0file:.git/config\0user.name\0";
    assert!(parse_identity(bytes).unwrap().name.is_none());
}

#[test]
fn values_keep_their_scope_their_newlines_and_lose_bytes_that_are_not_text() {
    let bytes = b"command\0command line:\0user.name\nA\nB\xff\0";
    let name = parse_identity(bytes).unwrap().name.unwrap();
    assert_eq!(name.scope, "command");
    assert_eq!(name.origin, None);
    assert_eq!(name.value, "A\nB\u{fffd}");
}

#[test]
fn an_empty_scope_closes_the_listing() {
    let identity = parse_identity(b"global\0file:c\0user.name\nA\0\0file:d\0user.name\nB\0").unwrap();
    assert_eq!(identity.name.unwrap().value, "A");
}

#[test]
fn a_failed_listing_is_an_error() {
    let output = GitOutput {
        success: false,
        code: Some(128),
        stdout: Vec::new(),
        stderr: b"fatal: bad config line 1\n".to_vec(),
    };
    assert_eq!(
        effective_identity(&output).unwrap_err(),
        "git config --list failed: fatal: bad config line 1"
    );
}
