use cloakroom::config::Config;
use cloakroom::file_path::FilePath;
use cloakroom::identity::{ConfigEntry, EffectiveIdentity};
use cloakroom::profiles::{Profile, Profiles};
use cloakroom::run_status::RunStatus;
use cloakroom::paths::Layout;
use cloakroom::render::compile;
use cloakroom::status::{
    is_generated_marker, is_generated_object, origin_display, report, same_origin,
};

fn entry(scope: &str, origin: Option<&str>) -> ConfigEntry {
    valued(scope, origin, "value")
}

fn valued(scope: &str, origin: Option<&str>, value: &str) -> ConfigEntry {
    ConfigEntry {
        scope: scope.to_owned(),
        origin: origin.map(str::to_owned),
        value: value.to_owned(),
    }
}

#[test]
fn matching_scope_and_origin_identify_one_source() {
    assert!(same_origin(
        &entry("global", Some("profile")),
        &entry("global", Some("profile"))
    ));
    assert!(!same_origin(
        &entry("local", Some("repo")),
        &entry("global", Some("profile"))
    ));
}

#[test]
fn sources_are_compared_in_scope_and_as_paths() {
    assert!(same_origin(
        &entry("global", Some("/a//b/")),
        &entry("global", Some("/a/./b"))
    ));
    assert!(!same_origin(
        &entry("local", Some("/a")),
        &entry("global", Some("/a"))
    ));
    assert!(same_origin(&entry("command", None), &entry("command", None)));
    assert!(!same_origin(&entry("command", None), &entry("command", Some(""))));
}

/// Paths that do not exist cannot be resolved, which is the same answer
/// wanted here: no origin, no proof.
#[test]
fn markers_need_a_real_generated_object_origin() {
    assert!(!is_generated_marker(&entry("command", None), &None, &None));
    assert!(!is_generated_marker(
        &entry("global", Some("/cloakroom-test/missing-object")),
        &None,
        &None
    ));
}

#[test]
fn only_digests_directly_inside_the_objects_are_generated() {
    let digest = "0123456789abcdefABCDEF0123456789abcdefABCDEF0123456789abcdefABCD";
    let marker = entry("global", Some("anything"));
    let generated = |origin: &str, objects: &str| {
        is_generated_marker(
            &marker,
            &Some(FilePath::from_text(origin)),
            &Some(FilePath::from_text(objects)),
        )
    };
    assert_eq!(digest.len(), 64);
    assert!(generated(&format!("/g/objects/{digest}.gitconfig"), "/g/objects"));
    assert!(!generated(&format!("g/objects/{digest}.gitconfig"), "/g/objects"));
    assert!(!generated(&format!("/g/objects/x/{digest}.gitconfig"), "/g/objects"));
    assert!(!generated(&format!("/g/{digest}.gitconfig"), "/g/objects"));
    assert!(!generated(&format!("/g/objects/{digest}"), "/g/objects"));
    assert!(!generated(&format!("/g/objects/{digest}0.gitconfig"), "/g/objects"));
    assert!(!generated(&format!("/g/objects/g{}.gitconfig", &digest[1..]), "/g/objects"));
    assert!(!generated("/", "/g/objects"));
    assert!(!is_generated_marker(
        &entry("command", None),
        &Some(FilePath::from_text(&format!("/g/objects/{digest}.gitconfig"))),
        &Some(FilePath::from_text("/g/objects"))
    ));
}

#[test]
fn non_file_origins_have_a_readable_label() {
    assert_eq!(origin_display(&entry("command", None)), "a non-file origin");
    assert_eq!(origin_display(&entry("local", Some(".git/config"))), ".git/config");
}

#[test]
fn a_selected_identity_is_clean() {
    let identity = EffectiveIdentity {
        profile: Some(valued("global", Some("/o"), "work")),
        name: Some(valued("global", Some("/o"), "Pat")),
        email: Some(valued("global", Some("/o"), "p@w")),
    };
    let result = report(&Some("/repo".to_owned()), &identity, true);
    assert_eq!(
        result.lines,
        vec![
            "repository: /repo",
            "identity:   Pat <p@w>",
            "profile:    work (selected by cloakroom)",
        ]
    );
    assert_eq!(result.status, RunStatus::Clean);
    let forged = report(&Some("/repo".to_owned()), &identity, false);
    assert_eq!(
        forged.lines[2..].to_vec(),
        vec![
            "profile:    work selected, but the identity is overridden",
            "name from:  /o (scope global)",
            "email from: /o (scope global)",
        ]
    );
    assert_eq!(forged.status, RunStatus::Issues);
}

#[test]
fn an_override_is_an_issue() {
    let identity = EffectiveIdentity {
        profile: Some(valued("global", Some("/o"), "work")),
        name: Some(valued("command", None, "Pat")),
        email: Some(valued("global", Some("/o"), "p@w")),
    };
    let result = report(&None, &identity, true);
    assert_eq!(
        result.lines,
        vec![
            "repository: none (not inside a git repository; showing the fall-through identity)",
            "identity:   Pat <p@w>",
            "profile:    work selected, but the identity is overridden",
            "name from:  a non-file origin (scope command)",
        ]
    );
    assert_eq!(result.status, RunStatus::Issues);
}

#[test]
fn identities_from_elsewhere_are_named() {
    let with = |name: bool, email: bool| {
        report(
            &None,
            &EffectiveIdentity {
                profile: None,
                name: name.then(|| valued("global", Some("/n"), "Pat")),
                email: email.then(|| valued("local", Some("/e"), "p@w")),
            },
            false,
        )
    };
    let both = with(true, true);
    assert_eq!(both.lines[2], "profile:    none (identity from /e, scope local)");
    assert_eq!(both.status, RunStatus::Clean);
    let name = with(true, false);
    assert_eq!(name.lines[1], "identity:   Pat (user.email is not set)");
    assert_eq!(name.lines[2], "profile:    none (identity from /n, scope global)");
    assert_eq!(name.status, RunStatus::Issues);
    let email = with(false, true);
    assert_eq!(email.lines[1], "identity:   <p@w> (user.name is not set)");
    assert_eq!(email.status, RunStatus::Issues);
    let none = with(false, false);
    assert_eq!(
        none.lines[1],
        "identity:   none (git resolves no user.name or user.email)"
    );
    assert_eq!(none.lines[2], "profile:    none");
    assert_eq!(none.status, RunStatus::Issues);
}

#[test]
fn compiled_objects_are_recognized_where_they_are_written() {
    let mut profiles = Profiles::new();
    profiles.insert(
        "a".to_owned(),
        Profile {
            name: "A".to_owned(),
            email: "a@b".to_owned(),
        },
    );
    let compiled = compile(&Config {
        profiles,
        rules: Vec::new(),
    });
    for home in ["/h", "/h/", "relative", ""] {
        let layout = Layout::new(None, Some(FilePath::from_text(home))).unwrap();
        assert!(is_generated_object(
            &layout.object_gitconfig(compiled.objects.key_at(0)),
            &layout.objects_dir()
        ));
        assert!(!is_generated_object(
            &layout.root_gitconfig(),
            &layout.objects_dir()
        ));
    }
}
