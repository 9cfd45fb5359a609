use std::collections::BTreeMap;

use cloakroom::app::{
    apply_with, ensure_remote_rule_support, report_write, Session, STARTER_CONFIG,
};
use cloakroom::cli::Command;
use cloakroom::config::{validate, RawConfig, RawRule};
use cloakroom::doctor::TreeOnDisk;
use cloakroom::file_io::{decide_write, prune_objects, WriteOutcome};
use cloakroom::file_path::FilePath;
use cloakroom::git::{GitOutput, RemoteRuleSupport, ResolvedPath};
use cloakroom::paths::Layout;
use cloakroom::profiles::{Profile, Profiles};
use cloakroom::publication::{write_generated, Step};
use cloakroom::run_status::RunStatus;
use cloakroom::turn::{Action, Event, Stage};

#[test]
fn status_combination_retains_the_highest_severity() {
    assert_eq!(RunStatus::Clean.combine(RunStatus::Clean), RunStatus::Clean);
    assert_eq!(
        RunStatus::Clean.combine(RunStatus::Issues),
        RunStatus::Issues
    );
    assert_eq!(
        RunStatus::Issues.combine(RunStatus::Clean),
        RunStatus::Issues
    );
    assert_eq!(
        RunStatus::Issues.combine(RunStatus::Failure),
        RunStatus::Failure
    );
    assert_eq!(
        RunStatus::Failure.combine(RunStatus::Clean),
        RunStatus::Failure
    );
}

#[test]
fn exit_codes_are_the_documented_ones() {
    assert_eq!(RunStatus::Clean.exit_code(), 0);
    assert_eq!(RunStatus::Issues.exit_code(), 1);
    assert_eq!(RunStatus::Failure.exit_code(), 2);
    assert_eq!(RunStatus::default(), RunStatus::Clean);
    assert!(RunStatus::Clean < RunStatus::Issues && RunStatus::Issues < RunStatus::Failure);
}

fn text_of(table: &toml::Table, key: &str) -> Option<String> {
    table.get(key).map(|value| value.as_str().unwrap().to_owned())
}

fn parse(text: &str) -> RawConfig {
    let table: toml::Table = text.parse().unwrap();
    let mut profiles = Profiles::new();
    if let Some(list) = table.get("profiles") {
        for (key, value) in list.as_table().unwrap() {
            let value = value.as_table().unwrap();
            profiles.insert(
                key.clone(),
                Profile {
                    name: text_of(value, "name").unwrap(),
                    email: text_of(value, "email").unwrap(),
                },
            );
        }
    }
    let mut rules = Vec::new();
    if let Some(list) = table.get("rules") {
        for value in list.as_array().unwrap() {
            let value = value.as_table().unwrap();
            let remotes = match value.get("remotes") {
                Some(list) => list
                    .as_array()
                    .unwrap()
                    .iter()
                    .map(|pattern| pattern.as_str().unwrap().to_owned())
                    .collect(),
                None => Vec::new(),
            };
            rules.push(RawRule {
                profile: text_of(value, "profile").unwrap(),
                path: text_of(value, "path"),
                remotes,
                case_insensitive: value
                    .get("case_insensitive")
                    .map_or(false, |flag| flag.as_bool().unwrap()),
            });
        }
    }
    RawConfig { profiles, rules }
}

#[test]
fn the_starter_config_parses_as_an_empty_config() {
    // A fresh init must produce a valid, empty generated tree.
    let config = parse(STARTER_CONFIG);
    assert!(config.profiles.is_empty());
    assert!(config.rules.is_empty());
}

#[test]
fn the_starter_config_parses_once_it_is_uncommented() {
    let text: String = STARTER_CONFIG
        .lines()
        .skip(6)
        .map(|line| format!("{}\n", line.trim_start_matches('#')))
        .collect();
    let config = parse(&text);
    assert_eq!(config.profiles.len(), 1);
    assert_eq!(config.rules.len(), 2);
}

#[test]
fn remote_rule_preflight_rejects_old_and_unknown_git() {
    assert!(ensure_remote_rule_support(RemoteRuleSupport::Supported).is_ok());
    assert!(ensure_remote_rule_support(RemoteRuleSupport::TooOld(2, 35)).is_err());
    assert!(ensure_remote_rule_support(RemoteRuleSupport::Unknown).is_err());
}

#[test]
fn remote_rule_refusals_say_why() {
    assert_eq!(
        ensure_remote_rule_support(RemoteRuleSupport::TooOld(2, 35)).unwrap_err(),
        "git 2.35 does not support hasconfig conditions; remote rules need git 2.36 or newer"
    );
    assert_eq!(
        ensure_remote_rule_support(RemoteRuleSupport::Unknown).unwrap_err(),
        "could not parse the git version; remote rules need git 2.36 or newer"
    );
}

#[test]
fn writes_are_reported() {
    assert_eq!(report_write(WriteOutcome::Wrote, "x"), "wrote x");
    assert_eq!(report_write(WriteOutcome::Unchanged, "x"), "unchanged x");
}

/// A world in memory: what the actions of a run find and change.
struct World {
    files: BTreeMap<Vec<u8>, Vec<u8>>,
    includes: Vec<String>,
    version: &'static str,
    toplevel: Option<&'static str>,
    listing: Vec<u8>,
    /// Paths that resolve to another.
    links: BTreeMap<Vec<u8>, Vec<u8>>,
    /// Every file written or removed, in order.
    changes: Vec<String>,
    stdout: Vec<String>,
    stderr: Vec<String>,
}

fn layout() -> Layout {
    Layout::new(None, Some(FilePath::from_text("/h"))).unwrap()
}

const CONFIG: &str = "/h/.config/cloakroom/config.toml";
const ROOT: &str = "/h/.config/cloakroom/generated/root.gitconfig";
const OBJECTS: &str = "/h/.config/cloakroom/generated/objects";

fn ran(success: bool, code: i32, stdout: &[u8], stderr: &[u8]) -> Event {
    Event::Ran(GitOutput {
        success,
        code: Some(code),
        stdout: stdout.to_vec(),
        stderr: stderr.to_vec(),
    })
}

impl World {
    fn new() -> Self {
        World {
            files: BTreeMap::new(),
            includes: Vec::new(),
            version: "git version 2.43.0\n",
            toplevel: None,
            listing: Vec::new(),
            links: BTreeMap::new(),
            changes: Vec::new(),
            stdout: Vec::new(),
            stderr: Vec::new(),
        }
    }

    fn with_config(text: &str) -> Self {
        let mut world = World::new();
        world.files.insert(CONFIG.into(), text.into());
        world
    }

    fn text(&self, path: &str) -> String {
        String::from_utf8(self.files[path.as_bytes()].clone()).unwrap()
    }

    fn names(&self, directory: &[u8]) -> Vec<Option<String>> {
        let mut prefix = directory.to_vec();
        prefix.push(b'/');
        self.files
            .keys()
            .filter_map(|path| path.strip_prefix(prefix.as_slice()))
            .map(|name| String::from_utf8(name.to_vec()).ok())
            .collect()
    }

    fn resolve(&self, path: &FilePath) -> ResolvedPath {
        let mut bytes = path.bytes.clone();
        if let Some(target) = self.links.get(&bytes) {
            bytes = target.clone();
        }
        let mut prefix = bytes.clone();
        prefix.push(b'/');
        let exists = self
            .files
            .keys()
            .any(|file| *file == bytes || file.starts_with(&prefix));
        ResolvedPath {
            path: FilePath {
                bytes: path.bytes.clone(),
            },
            resolved: exists.then_some(FilePath { bytes }),
        }
    }

    fn git(&mut self, arguments: &[String]) -> Event {
        let arguments: Vec<&str> = arguments.iter().map(String::as_str).collect();
        match arguments.as_slice() {
            ["version"] => ran(true, 0, self.version.as_bytes(), b""),
            ["config", "--global", "--path", "--null", "--get-all", "include.path"] => {
                if self.includes.is_empty() {
                    return ran(false, 1, b"", b"");
                }
                let list: String = self
                    .includes
                    .iter()
                    .map(|path| format!("{}\0", path.replacen('~', "/h", 1)))
                    .collect();
                ran(true, 0, list.as_bytes(), b"")
            }
            ["config", "--global", "--add", "include.path", path] => {
                self.includes.push(path.to_string());
                ran(true, 0, b"", b"")
            }
            ["rev-parse", "--show-toplevel"] => match self.toplevel {
                Some(root) => ran(true, 0, format!("{root}\n").as_bytes(), b""),
                None => ran(false, 128, b"", b"fatal: not a git repository\n"),
            },
            ["config", "--null", "--list", "--show-scope", "--show-origin"] => {
                ran(true, 0, &self.listing.clone(), b"")
            }
            other => panic!("git {other:?}"),
        }
    }

    fn perform(&mut self, step: Step) -> Event {
        match step {
            Step::Directory(_) => Event::Done,
            Step::Write { path, contents, .. } => {
                let existing = self.files.get(&path.bytes).cloned();
                let outcome = decide_write(&existing, &contents);
                if outcome == WriteOutcome::Wrote {
                    self.changes.push(format!("wrote {}", path.display()));
                    self.files.insert(path.bytes, contents.into_bytes());
                }
                Event::Wrote(outcome)
            }
            Step::Prune { directory, keep } => {
                let removed = prune_objects(&self.names(&directory.bytes), &keep);
                for name in &removed {
                    self.changes.push(format!("removed {name}"));
                    self.files.remove(&directory.join(name).bytes);
                }
                Event::Pruned(removed)
            }
        }
    }

    fn act(&mut self, action: Action) -> Event {
        match action {
            Action::Perform(step) => self.perform(step),
            Action::FindFile(path) => Event::Found(self.files.contains_key(&path.bytes)),
            Action::LoadConfig(path) => Event::Loaded(parse(&self.text(&path.display()))),
            Action::RunGit { arguments, .. } => self.git(&arguments),
            Action::ReadTree {
                root,
                objects,
                directory,
            } => Event::Tree(TreeOnDisk {
                root: self.files.get(&root.bytes).cloned(),
                objects: objects
                    .iter()
                    .map(|path| self.files.get(&path.bytes).cloned())
                    .collect(),
                names: self.names(&directory.bytes),
            }),
            Action::Resolve { paths, target } => Event::Resolved {
                paths: paths.iter().map(|path| self.resolve(path)).collect(),
                target: self.resolve(&target),
            },
            Action::Finish(_) => unreachable!(),
        }
    }

    fn run(&mut self, command: Command) -> RunStatus {
        self.changes.clear();
        self.stdout.clear();
        self.stderr.clear();
        let session = Session {
            command,
            layout: layout(),
        };
        let mut turn = session.run();
        loop {
            for line in turn.lines {
                if line.error {
                    self.stderr.push(line.text);
                } else {
                    self.stdout.push(line.text);
                }
            }
            if let Action::Finish(status) = turn.action {
                return status;
            }
            let event = self.act(turn.action);
            turn = session.next(turn.stage, event);
        }
    }
}

const SAMPLE: &str = "[profiles.work]\nname = \"Pat Work\"\nemail = \"pat@work.example\"\n[[rules]]\nprofile = \"work\"\npath = \"~/src/work/\"\n[[rules]]\nprofile = \"work\"\nremotes = [\"git@example.com:work/**\"]\n";


fn object_path(world: &World) -> String {
    let names = world.names(OBJECTS.as_bytes());
    assert_eq!(names.len(), 1);
    format!("{OBJECTS}/{}", names[0].as_ref().unwrap())
}

#[test]
fn init_creates_publishes_and_includes_and_a_second_run_changes_nothing() {
    let mut world = World::new();
    assert_eq!(world.run(Command::Init), RunStatus::Clean);
    assert_eq!(
        world.stdout,
        vec![
            format!("wrote {CONFIG}"),
            "wrote generated/root.gitconfig".to_owned(),
            "added include.path ~/.config/cloakroom/generated/root.gitconfig to the global gitconfig"
                .to_owned(),
        ]
    );
    assert_eq!(world.text(CONFIG), STARTER_CONFIG);
    assert_eq!(world.text(ROOT), "");
    assert_eq!(
        world.includes,
        vec!["~/.config/cloakroom/generated/root.gitconfig"]
    );

    assert_eq!(world.run(Command::Init), RunStatus::Clean);
    assert_eq!(
        world.stdout,
        vec![
            format!("kept existing {CONFIG}"),
            "unchanged generated/root.gitconfig".to_owned(),
            "global gitconfig already includes ~/.config/cloakroom/generated/root.gitconfig"
                .to_owned(),
        ]
    );
    assert!(world.changes.is_empty());
    assert_eq!(world.includes.len(), 1);
    assert!(world.stderr.is_empty());
}

#[test]
fn init_keeps_an_include_that_leads_to_the_root_by_another_way() {
    let mut world = World::with_config(SAMPLE);
    world.includes.push("/elsewhere".to_owned());
    world.includes.push("/link".to_owned());
    world.links.insert(b"/link".to_vec(), ROOT.into());
    assert_eq!(world.run(Command::Init), RunStatus::Clean);
    assert_eq!(world.includes.len(), 2);
}

#[test]
fn init_stops_at_a_broken_config() {
    let mut world = World::with_config("[[rules]]\nprofile = \"ghost\"\n");
    assert_eq!(world.run(Command::Init), RunStatus::Failure);
    assert_eq!(world.stdout, vec![format!("kept existing {CONFIG}")]);
    assert_eq!(
        world.stderr,
        vec![
            "cloakroom: rule 1: unknown profile \"ghost\"",
            "cloakroom: rule 1: needs a path or remotes; it can never match",
        ]
    );
    assert!(world.changes.is_empty());
    assert!(world.includes.is_empty());
}

#[test]
fn apply_refuses_to_create_a_config() {
    let mut world = World::new();
    assert_eq!(world.run(Command::Apply), RunStatus::Failure);
    assert_eq!(
        world.stderr,
        vec![format!("cloakroom: no config at {CONFIG}; run cloakroom init")]
    );
    assert!(world.files.is_empty());
}

#[test]
fn apply_publishes_objects_then_the_root_then_prunes() {
    let mut world = World::with_config(SAMPLE);
    let stale = format!("{OBJECTS}/old.gitconfig");
    let other = format!("{OBJECTS}/notes.txt");
    world.files.insert(stale.clone().into(), b"".to_vec());
    world.files.insert(other.clone().into(), b"".to_vec());
    assert_eq!(world.run(Command::Apply), RunStatus::Clean);
    assert_eq!(world.changes.len(), 3);
    assert!(world.changes[0].starts_with(&format!("wrote {OBJECTS}/")));
    assert_eq!(world.changes[1], format!("wrote {ROOT}"));
    assert_eq!(world.changes[2], "removed old.gitconfig");
    assert_eq!(world.stdout[2], "removed generated/objects/old.gitconfig");
    assert!(!world.files.contains_key(stale.as_bytes()));
    assert!(world.files.contains_key(other.as_bytes()));
    world.files.remove(other.as_bytes());

    let object = object_path(&world);
    assert_eq!(
        world.text(&object),
        "[user]\n\tname = \"Pat Work\"\n\temail = \"pat@work.example\"\n[cloakroom]\n\tprofile = \"work\"\n"
    );
    let name = object.strip_prefix(OBJECTS).unwrap();
    assert_eq!(
        world.text(ROOT),
        format!(
            "[includeIf \"gitdir:~/src/work/\"]\n\tpath = objects{name}\n[includeIf \"hasconfig:remote.*.url:git@example.com:work/**\"]\n\tpath = objects{name}\n"
        )
    );
    assert!(world.includes.is_empty());

    assert_eq!(world.run(Command::Apply), RunStatus::Clean);
    assert_eq!(
        world.stdout,
        vec![
            format!("unchanged generated/objects{name}"),
            "unchanged generated/root.gitconfig".to_owned(),
        ]
    );
    assert!(world.changes.is_empty());
}

#[test]
fn apply_needs_a_git_that_supports_remote_rules() {
    let mut world = World::with_config(SAMPLE);
    world.version = "git version 2.35.8\n";
    assert_eq!(world.run(Command::Apply), RunStatus::Failure);
    assert_eq!(
        world.stderr,
        vec!["cloakroom: git 2.35 does not support hasconfig conditions; remote rules need git 2.36 or newer"]
    );
    assert!(world.changes.is_empty());
    world.version = "custom build";
    assert_eq!(world.run(Command::Apply), RunStatus::Failure);
    assert!(world.changes.is_empty());
    world.version = "git version 2.36.0\n";
    assert_eq!(world.run(Command::Apply), RunStatus::Clean);
}

#[test]
fn a_failed_prune_is_reported_and_does_not_fail_the_publication() {
    let config = validate(parse(SAMPLE)).unwrap();
    for command in [Command::Apply, Command::Init] {
        let session = Session {
            command,
            layout: layout(),
        };
        let steps = write_generated(&layout(), &config);
        let index = steps.len() - 1;
        let turn = session.next(
            Stage::Publishing { steps, index },
            Event::Failed("denied".to_owned()),
        );
        assert_eq!(turn.lines.len(), 1);
        assert!(turn.lines[0].error);
        assert_eq!(
            turn.lines[0].text,
            "cloakroom: denied; the new tree is in place, but stale objects are left: run cloakroom apply"
        );
        assert!(matches!(turn.action, Action::Finish(RunStatus::Issues)));
    }
}

#[test]
fn a_failure_before_the_root_is_written_fails_the_run() {
    let config = validate(parse(SAMPLE)).unwrap();
    let session = Session {
        command: Command::Apply,
        layout: layout(),
    };
    let count = write_generated(&layout(), &config).len();
    for index in 0..count - 1 {
        let steps = write_generated(&layout(), &config);
        let turn = session.next(
            Stage::Publishing { steps, index },
            Event::Failed("denied".to_owned()),
        );
        assert_eq!(turn.lines[0].text, "cloakroom: denied");
        assert!(matches!(turn.action, Action::Finish(RunStatus::Failure)));
    }
}

#[test]
fn every_line_of_the_starter_config_is_a_comment() {
    assert!(STARTER_CONFIG.lines().all(|line| line.starts_with('#')));
}

#[test]
fn path_rules_need_no_version() {
    let mut world = World::with_config("[profiles.a]\nname = \"A\"\nemail = \"a@b\"\n[[rules]]\nprofile = \"a\"\npath = \"~/x/\"\n");
    world.version = "nonsense";
    assert_eq!(world.run(Command::Apply), RunStatus::Clean);
}

fn listed(scope: &str, origin: &str, key: &str, value: &str) -> Vec<u8> {
    format!("{scope}\0{origin}\0{key}\n{value}\0").into_bytes()
}

fn selected(world: &World, name: &str) -> Vec<u8> {
    let origin = format!("file:{}", object_path(world));
    let mut listing = listed("global", &origin, "user.name", name);
    listing.extend(listed("global", &origin, "user.email", "pat@work.example"));
    listing.extend(listed("global", &origin, "cloakroom.profile", "work"));
    listing
}

#[test]
fn status_explains_a_selected_identity() {
    let mut world = World::with_config(SAMPLE);
    world.run(Command::Apply);
    world.toplevel = Some("/repo");
    world.listing = selected(&world, "Pat Work");
    assert_eq!(world.run(Command::Status), RunStatus::Clean);
    assert_eq!(
        world.stdout,
        vec![
            "repository: /repo",
            "identity:   Pat Work <pat@work.example>",
            "profile:    work (selected by cloakroom)",
        ]
    );
    assert!(world.changes.is_empty());
}

#[test]
fn status_sees_through_a_forged_marker() {
    let mut world = World::new();
    world.listing = listed("local", "file:.git/config", "cloakroom.profile", "work");
    assert_eq!(world.run(Command::Status), RunStatus::Issues);
    assert_eq!(
        world.stdout,
        vec![
            "repository: none (not inside a git repository; showing the fall-through identity)",
            "identity:   none (git resolves no user.name or user.email)",
            "profile:    work selected, but the identity is overridden",
        ]
    );
}

#[test]
fn status_without_a_marker_names_the_source() {
    let mut world = World::new();
    world.listing = listed("global", "file:/h/.gitconfig", "user.name", "Pat");
    world
        .listing
        .extend(listed("command", "command line:", "user.email", "p@w"));
    assert_eq!(world.run(Command::Status), RunStatus::Clean);
    assert_eq!(
        world.stdout[2],
        "profile:    none (identity from a non-file origin, scope command)"
    );
}

#[test]
fn doctor_is_content_after_init_and_only_reads() {
    let mut world = World::with_config(SAMPLE);
    world.run(Command::Init);
    world.toplevel = Some("/repo");
    world.listing = selected(&world, "Pat Work");
    assert_eq!(world.run(Command::Doctor), RunStatus::Clean);
    assert_eq!(
        world.stdout,
        vec![
            "ok: config.toml parses and validates",
            "ok: generated files match the configuration",
            "ok: global gitconfig includes the generated root",
            "ok: git is new enough for hasconfig remote rules",
            "ok: the identity in this repository matches cloakroom's rules",
        ]
    );
    assert!(world.changes.is_empty());
}

#[test]
fn doctor_lists_everything_that_is_wrong() {
    let mut world = World::with_config(SAMPLE);
    world.run(Command::Init);
    world.toplevel = Some("/repo");
    world.listing = selected(&world, "Somebody Else");
    world.files.insert(ROOT.into(), b"edited".to_vec());
    world
        .files
        .insert(format!("{OBJECTS}/old.gitconfig").into(), b"".to_vec());
    world.includes.push(ROOT.to_owned());
    world.version = "git version 2.30.0\n";
    let object = world
        .names(OBJECTS.as_bytes())
        .into_iter()
        .flatten()
        .find(|name| name != "old.gitconfig")
        .unwrap();
    world.listing = {
        let origin = format!("file:{OBJECTS}/{object}");
        let mut listing = listed("global", &origin, "cloakroom.profile", "work");
        listing.extend(listed("local", "file:.git/config", "user.name", "Somebody"));
        listing
    };
    assert_eq!(world.run(Command::Doctor), RunStatus::Issues);
    assert_eq!(
        world.stdout,
        vec![
            "ok: config.toml parses and validates",
            "issue: generated/root.gitconfig is stale; run cloakroom apply",
            "issue: generated/objects/old.gitconfig is not in the current manifest; run cloakroom apply",
            "issue: global gitconfig includes the generated root 2 times; remove duplicate include.path entries: run git config --global --edit",
            "issue: git 2.30 does not support hasconfig conditions; remote rules need git 2.36 or newer; upgrade git, then run cloakroom apply",
            "issue: no user.email resolves in this repository; git will refuse to commit; run git config user.email <email>",
            "issue: user.name is \"Somebody\" from .git/config (scope local), but cloakroom profile work sets \"Pat Work\"; run git config --file .git/config --unset-all user.name",
        ]
    );
}

#[test]
fn doctor_goes_on_without_a_config() {
    let mut world = World::new();
    assert_eq!(world.run(Command::Doctor), RunStatus::Issues);
    assert_eq!(
        world.stdout,
        vec![
            format!("issue: no config at {CONFIG}; run cloakroom init"),
            "issue: global gitconfig does not include ~/.config/cloakroom/generated/root.gitconfig; run cloakroom init".to_owned(),
            "note: not inside a git repository; identity checks skipped".to_owned(),
        ]
    );
    assert!(world.files.is_empty());
}

#[test]
fn doctor_reports_a_config_it_cannot_load_and_others_fail() {
    let session = |command| Session {
        command,
        layout: layout(),
    };
    let turn = session(Command::Doctor).next(Stage::Loading, Event::Failed("bad".to_owned()));
    assert!(matches!(turn.action, Action::RunGit { here: false, .. }));
    let turn = session(Command::Apply).next(Stage::Loading, Event::Failed("bad".to_owned()));
    assert_eq!(turn.lines[0].text, "cloakroom: bad");
    assert!(turn.lines[0].error);
    assert!(matches!(turn.action, Action::Finish(RunStatus::Failure)));
}

#[test]
fn failures_of_git_end_a_run() {
    let session = Session {
        command: Command::Init,
        layout: layout(),
    };
    let failed = |stage, message: &str| {
        let turn = session.next(stage, ran(false, 128, b"", b"broken\n"));
        assert_eq!(turn.lines[0].text, format!("cloakroom: {message}"));
        assert!(matches!(turn.action, Action::Finish(RunStatus::Failure)));
    };
    failed(
        Stage::Listing,
        "git config --get-all include.path failed: broken",
    );
    failed(
        Stage::Adding,
        "git config --add include.path failed: broken",
    );
    failed(Stage::Locating, "git rev-parse failed: broken");
    failed(
        Stage::Identifying(None),
        "git config --list failed: broken",
    );
    failed(Stage::Preparing, "unexpected answer");
}

#[test]
fn a_valid_config_is_published_at_once_without_remote_rules() {
    let turn = apply_with(&layout(), parse(""));
    assert!(matches!(turn.action, Action::Perform(Step::Directory(_))));
    let turn = apply_with(&layout(), parse(SAMPLE));
    assert!(matches!(turn.action, Action::RunGit { .. }));
}

#[test]
fn every_object_the_root_names_exists_at_every_step() {
    let mut world = World::with_config(SAMPLE);
    world.run(Command::Apply);
    let other = "[profiles.home]\nname = \"H\"\nemail = \"h@h\"\n[[rules]]\nprofile = \"home\"\npath = \"~/\"\n";
    let config = validate(parse(other)).unwrap();
    let before = world.text(ROOT);
    for step in write_generated(&layout(), &config) {
        world.perform(step);
        for line in world.text(ROOT).lines() {
            if let Some(name) = line.strip_prefix("\tpath = objects/") {
                let path = format!("{OBJECTS}/{name}");
                assert!(world.files.contains_key(path.as_bytes()), "{path}");
            }
        }
    }
    assert_ne!(world.text(ROOT), before);
    assert_eq!(world.names(OBJECTS.as_bytes()).len(), 1);
}

#[test]
fn a_git_that_cannot_tell_its_version_ends_the_run() {
    let session = Session {
        command: Command::Apply,
        layout: layout(),
    };
    let config = validate(parse(SAMPLE)).unwrap();
    let turn = session.next(Stage::Preflight(config), ran(false, 1, b"", b" no \n"));
    assert_eq!(turn.lines[0].text, "cloakroom: git version failed: no");
    assert!(matches!(turn.action, Action::Finish(RunStatus::Failure)));
}
