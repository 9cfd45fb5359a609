use cloakroom::file_path::FilePath;
use cloakroom::git::{
    add_global_include, equivalent_global_include_count, global_include_paths, parse_version,
    remote_rule_support, remote_rule_support_for, repo_toplevel, same_target, stderr_of, version,
    GitOutput, RemoteRuleSupport, ResolvedPath,
};

fn ran(success: bool, code: Option<i32>, stdout: &[u8], stderr: &[u8]) -> GitOutput {
    GitOutput {
        success,
        code,
        stdout: stdout.to_vec(),
        stderr: stderr.to_vec(),
    }
}

#[test]
fn version_strings_parse_including_platform_suffixes() {
    assert_eq!(parse_version("git version 2.43.0"), Some((2, 43)));
    assert_eq!(parse_version("git version 2.36.1.windows.1"), Some((2, 36)));
    assert_eq!(
        parse_version("git version 2.39.3 (Apple Git-146)"),
        Some((2, 39))
    );
    assert_eq!(parse_version("nonsense"), None);
}

#[test]
fn odd_version_strings_parse_as_numbers_do() {
    assert_eq!(parse_version("\n git version 2.43 \u{3000}"), Some((2, 43)));
    assert_eq!(parse_version("git version +2.+43.x"), Some((2, 43)));
    assert_eq!(parse_version("git version 4294967295.0"), Some((4294967295, 0)));
    assert_eq!(parse_version("git version 4294967296.0"), None);
    assert_eq!(parse_version("git version 2"), None);
    assert_eq!(parse_version("git version 2."), None);
    assert_eq!(parse_version("git version .2"), None);
    assert_eq!(parse_version("git version +.2"), None);
    assert_eq!(parse_version("git version 2 .43"), None);
    assert_eq!(parse_version("git version "), None);
}

#[test]
fn remote_rule_support_is_conservative() {
    assert_eq!(
        remote_rule_support_for(Some((2, 35))),
        RemoteRuleSupport::TooOld(2, 35)
    );
    assert_eq!(
        remote_rule_support_for(Some((2, 36))),
        RemoteRuleSupport::Supported
    );
    assert_eq!(remote_rule_support_for(None), RemoteRuleSupport::Unknown);
}

#[test]
fn support_is_read_from_a_run_of_git() {
    assert_eq!(
        remote_rule_support(&ran(true, Some(0), b"git version 1.99.0\n", b"")),
        Ok(RemoteRuleSupport::TooOld(1, 99))
    );
    assert_eq!(
        remote_rule_support(&ran(true, Some(0), b"git version 3.0.0\n", b"")),
        Ok(RemoteRuleSupport::Supported)
    );
    assert_eq!(
        version(&ran(true, Some(0), b"git version 2.\xff", b"")),
        Ok(None)
    );
    assert_eq!(
        version(&ran(false, Some(1), b"", b" broken \n")),
        Err("git version failed: broken".to_owned())
    );
}

#[test]
fn the_error_stream_is_trimmed_and_made_text() {
    assert_eq!(stderr_of(&ran(false, None, b"", b"\t fatal: \xff x\n")), "fatal: \u{fffd} x");
}

#[test]
fn include_paths_are_listed_in_order() {
    assert_eq!(
        global_include_paths(&ran(true, Some(0), b"/a b\0/c\nd\0", b"")),
        Ok(vec!["/a b".to_owned(), "/c\nd".to_owned()])
    );
    assert_eq!(global_include_paths(&ran(true, Some(0), b"", b"")), Ok(Vec::new()));
    assert_eq!(global_include_paths(&ran(false, Some(1), b"", b"")), Ok(Vec::new()));
    assert_eq!(
        global_include_paths(&ran(false, Some(1), b"x", b"no")),
        Err("git config --get-all include.path failed: no".to_owned())
    );
    assert_eq!(
        global_include_paths(&ran(false, Some(128), b"", b"bad config")),
        Err("git config --get-all include.path failed: bad config".to_owned())
    );
    assert_eq!(
        global_include_paths(&ran(false, None, b"", b"")),
        Err("git config --get-all include.path failed: ".to_owned())
    );
}

fn path(text: &str, resolved: Option<&str>) -> ResolvedPath {
    ResolvedPath {
        path: FilePath::from_text(text),
        resolved: resolved.map(FilePath::from_text),
    }
}

/// Neither path can be resolved, so the comparison falls back to the strings
/// and must not collapse two different includes into one.
#[test]
fn different_missing_paths_are_not_the_same_target() {
    assert!(!same_target(
        &path("/cloakroom-test/missing-a", None),
        &path("/cloakroom-test/missing-b", None)
    ));
}

#[test]
fn equivalent_includes_are_counted() {
    let target = path("/h/root", Some("/real/root"));
    let includes = vec![
        path("/h//./root/", None),
        path("/link", Some("/real/root")),
        path("/h/other", Some("/real/other")),
        path("/h/missing", None),
    ];
    assert_eq!(equivalent_global_include_count(&includes, &target), 2);
    assert_eq!(equivalent_global_include_count(&Vec::new(), &target), 0);
    assert!(!same_target(&path("/a", Some("/r")), &path("/b", None)));
}

#[test]
fn adding_reports_what_git_says() {
    assert_eq!(add_global_include(&ran(true, Some(0), b"", b"")), Ok(()));
    assert_eq!(
        add_global_include(&ran(false, Some(4), b"", b"locked\n")),
        Err("git config --add include.path failed: locked".to_owned())
    );
}

#[test]
fn only_a_missing_repository_is_no_repository() {
    assert_eq!(
        repo_toplevel(&ran(true, Some(0), b"/a b \n", b"")),
        Ok(Some("/a b".to_owned()))
    );
    assert_eq!(
        repo_toplevel(&ran(false, Some(128), b"", b"fatal: not a git repository (or any)\n")),
        Ok(None)
    );
    assert_eq!(
        repo_toplevel(&ran(false, Some(128), b"", b"fatal: dubious ownership\n")),
        Err("git rev-parse failed: fatal: dubious ownership".to_owned())
    );
}
