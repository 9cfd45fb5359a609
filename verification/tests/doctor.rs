use cloakroom::config::{Config, RawConfig, RawRule, Rule, RuleCondition};
use cloakroom::doctor::{
    check_config, check_generated, check_git_version, check_identity, check_include, ConfigSource,
    Doctor, TreeOnDisk,
};
use cloakroom::file_path::FilePath;
use cloakroom::git::RemoteRuleSupport;
use cloakroom::identity::{ConfigEntry, EffectiveIdentity};
use cloakroom::paths::Layout;
use cloakroom::profiles::{Profile, Profiles};
use cloakroom::render::compile;
use cloakroom::run_status::RunStatus;

fn layout() -> Layout {
    Layout::new(None, Some(FilePath::from_text("/h"))).unwrap()
}

fn profiles(keys: &[&str]) -> Profiles {
    let mut result = Profiles::new();
    for key in keys {
        result.insert(
            key.to_string(),
            Profile {
                name: key.to_uppercase(),
                email: format!("{key}@b"),
            },
        );
    }
    result
}

fn raw_rule(profile: &str, path: &str, case_insensitive: bool) -> RawRule {
    RawRule {
        profile: profile.to_owned(),
        path: Some(path.to_owned()),
        remotes: Vec::new(),
        case_insensitive,
    }
}

#[test]
fn messages_and_status_add_up() {
    let mut doctor = Doctor::new();
    doctor.ok("a");
    doctor.note("b");
    assert_eq!(doctor.status, RunStatus::Clean);
    doctor.issue("c");
    doctor.issues(&vec!["d".to_owned()]);
    assert_eq!(doctor.lines, vec!["ok: a", "note: b", "issue: c", "issue: d"]);
    assert_eq!(doctor.status, RunStatus::Issues);
}

#[test]
fn unused_profiles_and_shadowed_conditions_are_reported() {
    let raw = RawConfig {
        profiles: profiles(&["a", "b", "c"]),
        rules: vec![
            raw_rule("a", "~/x/", false),
            raw_rule("a", "~/y/", false),
            raw_rule("b", "~/x/", false),
            raw_rule("b", "~/y/", true),
        ],
    };
    let mut doctor = Doctor::new();
    assert!(check_config(&mut doctor, &layout(), ConfigSource::Read(raw)).is_some());
    assert_eq!(
        doctor.lines,
        vec![
            "ok: config.toml parses and validates",
            "note: profile c has no rules; nothing selects it automatically",
            "issue: condition \"gitdir:~/x/\" selects profiles a, b; git applies the last one and the others are dead; edit config.toml, then run cloakroom apply",
        ]
    );
    assert_eq!(doctor.status, RunStatus::Issues);
}

#[test]
fn one_profile_twice_is_no_conflict() {
    let raw = RawConfig {
        profiles: profiles(&["a"]),
        rules: vec![RawRule {
            profile: "a".to_owned(),
            path: None,
            remotes: vec!["x".to_owned(), "x".to_owned()],
            case_insensitive: false,
        }],
    };
    let mut doctor = Doctor::new();
    assert!(check_config(&mut doctor, &layout(), ConfigSource::Read(raw)).is_some());
    assert_eq!(doctor.status, RunStatus::Clean);
}

#[test]
fn configs_that_cannot_be_trusted_are_issues() {
    let mut doctor = Doctor::new();
    assert!(check_config(&mut doctor, &layout(), ConfigSource::Missing).is_none());
    let unreadable = ConfigSource::Unreadable("invalid config".to_owned());
    assert!(check_config(&mut doctor, &layout(), unreadable).is_none());
    let raw = RawConfig {
        profiles: Profiles::new(),
        rules: vec![raw_rule("a", "", false)],
    };
    assert!(check_config(&mut doctor, &layout(), ConfigSource::Read(raw)).is_none());
    assert_eq!(
        doctor.lines,
        vec![
            "issue: no config at /h/.config/cloakroom/config.toml; run cloakroom init",
            "issue: invalid config; edit config.toml, then run cloakroom apply",
            "issue: rule 1: unknown profile \"a\"; edit config.toml, then run cloakroom apply",
            "issue: rule 1: path is empty; edit config.toml, then run cloakroom apply",
        ]
    );
}

fn config() -> Config {
    Config {
        profiles: profiles(&["a"]),
        rules: vec![Rule {
            profile: "a".to_owned(),
            condition: RuleCondition::Remotes {
                patterns: vec!["x".to_owned()],
            },
        }],
    }
}

#[test]
fn generated_files_are_compared_byte_for_byte() {
    let compiled = compile(&config());
    let digest = compiled.objects.key_at(0).clone();
    let tree = |root: Option<&str>, object: Option<&str>, names: Vec<Option<String>>| TreeOnDisk {
        root: root.map(|text| text.as_bytes().to_vec()),
        objects: vec![object.map(|text| text.as_bytes().to_vec())],
        names,
    };
    let check = |tree: TreeOnDisk| {
        let mut doctor = Doctor::new();
        check_generated(&mut doctor, &compiled, &tree);
        doctor.lines
    };
    let (root, object) = (compiled.root.as_str(), compiled.objects.value_at(0).as_str());
    assert_eq!(
        check(tree(
            Some(root),
            Some(object),
            vec![Some(format!("{digest}.gitconfig")), None, Some("x.txt".to_owned())]
        )),
        vec!["ok: generated files match the configuration"]
    );
    assert_eq!(
        check(tree(Some("x"), None, vec![Some("y.gitconfig".to_owned())])),
        vec![
            "issue: generated/root.gitconfig is stale; run cloakroom apply".to_owned(),
            format!("issue: generated/objects/{digest}.gitconfig is missing; run cloakroom apply"),
            "issue: generated/objects/y.gitconfig is not in the current manifest; run cloakroom apply"
                .to_owned(),
        ]
    );
    assert_eq!(
        check(tree(None, Some("x"), Vec::new())),
        vec![
            "issue: generated/root.gitconfig is missing; run cloakroom apply".to_owned(),
            format!("issue: generated/objects/{digest}.gitconfig is stale; run cloakroom apply"),
        ]
    );
}

#[test]
fn exactly_one_include_is_right() {
    let check = |count| {
        let mut doctor = Doctor::new();
        check_include(&mut doctor, &layout(), count);
        doctor.lines.remove(0)
    };
    assert_eq!(
        check(0),
        "issue: global gitconfig does not include ~/.config/cloakroom/generated/root.gitconfig; run cloakroom init"
    );
    assert_eq!(check(1), "ok: global gitconfig includes the generated root");
    assert_eq!(
        check(12),
        "issue: global gitconfig includes the generated root 12 times; remove duplicate include.path entries: run git config --global --edit"
    );
}

#[test]
fn versions_matter_to_remote_rules_alone() {
    let check = |config: Option<Config>, support| {
        let mut doctor = Doctor::new();
        check_git_version(&mut doctor, &config, support);
        doctor.lines
    };
    assert!(check(None, RemoteRuleSupport::Unknown).is_empty());
    let plain = Config {
        profiles: profiles(&["a"]),
        rules: Vec::new(),
    };
    assert!(check(Some(plain), RemoteRuleSupport::Unknown).is_empty());
    assert_eq!(
        check(Some(config()), RemoteRuleSupport::Supported),
        vec!["ok: git is new enough for hasconfig remote rules"]
    );
    assert_eq!(
        check(Some(config()), RemoteRuleSupport::TooOld(1, 9)),
        vec!["issue: git 1.9 does not support hasconfig conditions; remote rules need git 2.36 or newer; upgrade git, then run cloakroom apply"]
    );
    assert_eq!(
        check(Some(config()), RemoteRuleSupport::Unknown),
        vec!["issue: could not parse the git version; remote rules need Git 2.36 or newer; upgrade git, then run cloakroom apply"]
    );
}

fn entry(origin: Option<&str>, value: &str) -> Option<ConfigEntry> {
    Some(ConfigEntry {
        scope: "global".to_owned(),
        origin: origin.map(str::to_owned),
        value: value.to_owned(),
    })
}

fn identity_lines(
    identity: Option<EffectiveIdentity>,
    marker_is_generated: bool,
    config: Option<Config>,
) -> Vec<String> {
    let mut doctor = Doctor::new();
    check_identity(&mut doctor, &identity, marker_is_generated, &config);
    doctor.lines
}

#[test]
fn identities_are_compared_with_the_profile() {
    let identity = |origin: &str, profile: &str| {
        Some(EffectiveIdentity {
            profile: entry(Some("/o"), profile),
            name: entry(Some("/o"), "A"),
            email: entry(Some(origin), "a@b"),
        })
    };
    assert_eq!(
        identity_lines(identity("/o", "a"), true, Some(config())),
        vec!["ok: the identity in this repository matches cloakroom's rules"]
    );
    assert_eq!(
        identity_lines(identity("/p", "a"), true, Some(config())),
        vec!["issue: user.email is \"a@b\" from /p (scope global), but cloakroom profile a sets \"a@b\"; run git config --file /p --unset-all user.email"]
    );
    assert_eq!(
        identity_lines(identity("/o", "z"), true, Some(config())),
        vec!["issue: cloakroom profile marker \"z\" is not in config.toml; run cloakroom apply"]
    );
    assert_eq!(
        identity_lines(identity("/o", "a"), false, Some(config())),
        vec!["issue: cloakroom profile marker \"a\" comes from /o (scope global), not a generated object; run git config --file /o --unset-all cloakroom.profile"]
    );
    assert!(identity_lines(identity("/o", "a"), true, None).is_empty());
    assert_eq!(
        identity_lines(None, false, Some(config())),
        vec!["note: not inside a git repository; identity checks skipped"]
    );
}

#[test]
fn identities_from_elsewhere_are_fine_when_complete() {
    let identity = |name| {
        Some(EffectiveIdentity {
            profile: None,
            name,
            email: entry(None, "a@b"),
        })
    };
    assert_eq!(
        identity_lines(identity(entry(None, "A")), false, None),
        vec!["ok: no cloakroom rule matches this repository; the identity comes from elsewhere"]
    );
    assert_eq!(
        identity_lines(identity(None), false, None),
        vec!["issue: no user.name resolves in this repository; run git config user.name <name>"]
    );
}

#[test]
fn values_that_do_not_agree_come_with_what_fixes_them() {
    let identity = |name: &str, origin: Option<&str>| {
        Some(EffectiveIdentity {
            profile: entry(Some("/o"), "a"),
            name: entry(origin, name),
            email: entry(Some("/o"), "a@b"),
        })
    };
    assert_eq!(
        identity_lines(identity("Z", Some("/o")), true, Some(config())),
        vec!["issue: user.name is \"Z\" from /o (scope global), but cloakroom profile a sets \"A\"; run cloakroom apply"]
    );
    assert_eq!(
        identity_lines(identity("A", None), true, Some(config())),
        vec!["issue: user.name is \"A\" from a non-file origin (scope global), but cloakroom profile a sets \"A\"; drop it from the command line or the environment, then run cloakroom doctor"]
    );
}
