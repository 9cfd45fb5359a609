//! Command dispatch: the only module that decides what is printed and how a
//! run ends.
//!
//! A run is a sequence of turns. Each turn prints lines and asks for one
//! action; what comes of the action decides the next turn.

use vstd::prelude::*;
use vstd::string::StringExecFns;
use vstd::utf8::encode_utf8;

use crate::cli::Command;
use crate::config::{
    accepted, findings, uses_remotes, validate, Config, ConfigView, RawConfig, RawConfigView,
};
use crate::doctor::{
    asks_for_remotes, blank, check_config, completed, trusted_config, with_source, ConfigSource,
    Doctor, Evidence,
};
use crate::file_io::WriteOutcome;
use crate::file_path::{optional_path, FilePath};
use crate::git::{
    add_global_include, add_include, adding_arguments, addition, ask_toplevel, ask_version,
    equivalent_global_include_count, global_include_paths, leading_to, list_includes,
    listed_includes, listing_arguments, remote_rule_support, repo_toplevel, reported_support,
    resolved_paths, toplevel, toplevel_arguments, version_arguments, GitOutput, RemoteRuleSupport,
    ResolvedPath, ResolvedPathView,
};
use crate::identity::{
    ask_identity, effective_identity, identity_arguments, optional_identity, reported_identity,
    EffectiveIdentity, IdentityView,
};
use crate::number::{decimal, write_decimal};
use crate::paths::{config_file, object_gitconfig, objects_dir, root_gitconfig, Layout, LayoutView};
use crate::publication::{publication, steps_of, write_generated, Step, StepView};
use crate::render::{compile, tree_of};
use crate::run_status::RunStatus;
use crate::sorted_map::keys;
use crate::status::{generated_marker, identity_report, is_generated_marker};
use crate::text::{lossy_text, optional_text, texts};
use crate::turn::{
    ask, asking, complain, complained, end, ending, fail, failing, lines_of, paths_of, report,
    reporting, said, say, Action, ActionView, Checkup, CheckupView, Event, Line, LineView, Stage,
    StageView, Turn, TurnView, Wanted, WantedView,
};

verus! {

/// Written by `init` when there is no config yet. Every line is a comment, so
/// a fresh install compiles to an empty root.gitconfig and changes nothing
/// about the identity git resolves until the user edits it.
pub const STARTER_CONFIG: &'static str = "\
# cloakroom configuration. Edit, then run `cloakroom apply`.
#
# Profiles are identities. Rules select a profile by repository location
# (path, git's gitdir condition) or by remote URL (remotes, git's hasconfig
# condition). When several rules match, the last one wins.
#
# [profiles.personal]
# name = \"Your Name\"
# email = \"you@example.com\"
#
# [[rules]]
# profile = \"personal\"
# path = \"~/src/personal/\"
#
# [[rules]]
# profile = \"personal\"
# remotes = [\"git@github.com:you/**\", \"https://github.com/you/**\"]
";

////////////////////////////////////////////////////////////////////////////
// Publishing

/// Why remote rules cannot be used, if they cannot.
pub open spec fn refusal(support: RemoteRuleSupport) -> Option<Seq<char>> {
    match support {
        RemoteRuleSupport::Supported => None,
        RemoteRuleSupport::TooOld(major, minor) => Some(
            "git "@ + decimal(major as nat) + "."@ + decimal(minor as nat)
                + " does not support hasconfig conditions; remote rules need git 2.36 or newer"@,
        ),
        RemoteRuleSupport::Unknown => Some(
            "could not parse the git version; remote rules need git 2.36 or newer"@,
        ),
    }
}

/// Remote rules compile to `hasconfig` conditions. Git treats a condition it
/// does not know as false, so on an old git the generated file would parse
/// cleanly and never match. Refusing is the only way the user finds out.
pub fn ensure_remote_rule_support(support: RemoteRuleSupport) -> (result: Result<(), String>)
    ensures
        match result {
            Ok(()) => refusal(support) is None,
            Err(message) => refusal(support) == Some(message@),
        },
{
    match support {
        RemoteRuleSupport::Supported => Ok(()),
        RemoteRuleSupport::TooOld(major, minor) => Err(
            "git ".to_owned().concat(write_decimal(major as u64).as_str()).concat(".").concat(
                write_decimal(minor as u64).as_str(),
            ).concat(
                " does not support hasconfig conditions; remote rules need git 2.36 or newer",
            ),
        ),
        RemoteRuleSupport::Unknown => Err(
            "could not parse the git version; remote rules need git 2.36 or newer".to_owned(),
        ),
    }
}

/// What is printed on a file that was to be written.
pub open spec fn write_report(outcome: WriteOutcome, name: Seq<char>) -> Seq<char> {
    match outcome {
        WriteOutcome::Wrote => "wrote "@ + name,
        WriteOutcome::Unchanged => "unchanged "@ + name,
    }
}

/// What is printed on a file that was to be written.
pub fn report_write(outcome: WriteOutcome, name: &str) -> (result: String)
    ensures
        result@ == write_report(outcome, name@),
{
    match outcome {
        WriteOutcome::Wrote => "wrote ".to_owned().concat(name),
        WriteOutcome::Unchanged => "unchanged ".to_owned().concat(name),
    }
}

/// What is printed on an object that was removed.
pub open spec fn removal(name: Seq<char>) -> LineView {
    said("removed generated/objects/"@ + name)
}

/// What is printed on what came of a step, if it answers the step.
pub open spec fn step_lines(step: StepView, event: Event) -> Option<Seq<LineView>> {
    match (step, event) {
        (StepView::Directory(_), Event::Done) => Some(seq![]),
        (StepView::Write { label, .. }, Event::Wrote(outcome)) => Some(
            seq![said(write_report(outcome, label))],
        ),
        (StepView::Prune { .. }, Event::Pruned(names)) => Some(
            texts(names@).map_values(|name: Seq<char>| removal(name)),
        ),
        _ => None,
    }
}

/// What is printed on the objects that were removed.
fn report_removals(names: &Vec<String>) -> (result: Vec<Line>)
    ensures
        lines_of(result@) == texts(names@).map_values(|name: Seq<char>| removal(name)),
{
    let ghost wanted = texts(names@).map_values(|name: Seq<char>| removal(name));
    let mut list: Vec<Line> = Vec::new();
    let mut i: usize = 0;
    while i < names.len()
        invariant
            i <= names@.len(),
            wanted == texts(names@).map_values(|name: Seq<char>| removal(name)),
            lines_of(list@) == wanted.take(i as int),
        decreases names@.len() - i,
    {
        let ghost earlier = list@;
        let line = Line {
            text: "removed generated/objects/".to_owned().concat(names[i].as_str()),
            error: false,
        };
        list.push(line);
        i = i + 1;
        assert(lines_of(list@) == lines_of(earlier).push(line@));
        assert(wanted.take(i as int) == wanted.take(i - 1).push(line@));
    }
    assert(wanted.take(i as int) == wanted);
    list
}

/// What is printed on what came of a step.
fn report_step(step: &Step, event: &Event) -> (result: Option<Vec<Line>>)
    ensures
        match result {
            Some(lines) => step_lines(step@, *event) == Some(lines_of(lines@)),
            None => step_lines(step@, *event) is None,
        },
{
    match (step, event) {
        (Step::Directory(_), Event::Done) => {
            let lines: Vec<Line> = Vec::new();
            assert(lines_of(lines@) == Seq::<LineView>::empty());
            Some(lines)
        },
        (Step::Write { label, .. }, Event::Wrote(outcome)) => {
            let mut lines: Vec<Line> = Vec::new();
            let text = report_write(*outcome, label.as_str());
            lines.push(Line { text, error: false });
            assert(lines_of(lines@) == seq![said(text@)]);
            Some(lines)
        },
        (Step::Prune { .. }, Event::Pruned(names)) => Some(report_removals(names)),
        _ => None,
    }
}

/// The reason given when an answer does not fit what was asked for.
pub open spec fn misfit() -> TurnView {
    failing("unexpected answer"@)
}

/// An answer that does not fit what was asked for ends the run.
fn reject() -> (result: Turn)
    ensures
        result@ == misfit(),
{
    fail("unexpected answer")
}

/// Starts to publish the tree of a configuration.
pub open spec fn publishing(layout: LayoutView, config: ConfigView) -> TurnView {
    let steps = publication(layout.config_dir, tree_of(config));
    asking(StageView::Publishing { steps, index: 0 }, ActionView::Perform(steps[0]))
}

/// Starts to publish the tree of a configuration.
fn publish(layout: &Layout, config: &Config) -> (result: Turn)
    ensures
        result@ == publishing(layout@, config@),
{
    let steps = write_generated(layout, config);
    assert(steps_of(steps@).len() == steps@.len());
    assert(steps_of(steps@)[0] == steps@[0]@);
    let first = steps[0].copy();
    ask(Stage::Publishing { steps, index: 0 }, Action::Perform(first))
}

/// What becomes of a configuration that was read. Findings end the run: the
/// config is the user's to fix, and writing a partial tree from it would leave
/// git reading something nobody asked for.
pub open spec fn applying(layout: LayoutView, config: RawConfigView) -> TurnView {
    if findings(config).len() > 0 {
        ending(
            findings(config).map_values(|finding: Seq<char>| complained(finding)),
            RunStatus::Failure,
        )
    } else if uses_remotes(accepted(config)) {
        asking(
            StageView::Preflight(accepted(config)),
            ActionView::RunGit { here: false, arguments: version_arguments() },
        )
    } else {
        publishing(layout, accepted(config))
    }
}

/// What is printed on findings.
fn complain_all(list: &Vec<String>) -> (result: Vec<Line>)
    ensures
        lines_of(result@) == texts(list@).map_values(|finding: Seq<char>| complained(finding)),
{
    let ghost wanted = texts(list@).map_values(|finding: Seq<char>| complained(finding));
    let mut lines: Vec<Line> = Vec::new();
    let mut i: usize = 0;
    while i < list.len()
        invariant
            i <= list@.len(),
            wanted == texts(list@).map_values(|finding: Seq<char>| complained(finding)),
            lines_of(lines@) == wanted.take(i as int),
        decreases list@.len() - i,
    {
        let ghost earlier = lines@;
        let line = complain(list[i].as_str());
        lines.push(line);
        i = i + 1;
        assert(lines_of(lines@) == lines_of(earlier).push(line@));
        assert(wanted.take(i as int) == wanted.take(i - 1).push(line@));
    }
    assert(wanted.take(i as int) == wanted);
    lines
}

/// The body shared by `apply` and `init`, once the configuration was read.
pub fn apply_with(layout: &Layout, config: RawConfig) -> (result: Turn)
    ensures
        result@ == applying(layout@, config@),
{
    match validate(config) {
        Ok(config) => {
            if config.uses_remote_rules() {
                ask(
                    Stage::Preflight(config),
                    Action::RunGit { here: false, arguments: ask_version() },
                )
            } else {
                publish(layout, &config)
            }
        },
        Err(list) => end(complain_all(&list), RunStatus::Failure),
    }
}

////////////////////////////////////////////////////////////////////////////
// The configuration file

/// Loads the configuration, once `lines` are printed.
pub open spec fn loading(layout: LayoutView, lines: Seq<LineView>) -> TurnView {
    TurnView {
        stage: StageView::Loading,
        lines,
        action: ActionView::LoadConfig(config_file(layout.config_dir)),
    }
}

/// The reason given when there is no configuration.
pub open spec fn no_config(layout: LayoutView) -> Seq<char> {
    "no config at "@ + lossy_text(config_file(layout.config_dir)) + "; run cloakroom init"@
}

/// The step that writes the starter configuration.
pub open spec fn starter(layout: LayoutView) -> StepView {
    StepView::Write {
        path: config_file(layout.config_dir),
        contents: STARTER_CONFIG@,
        label: lossy_text(config_file(layout.config_dir)),
    }
}

/// What follows once it is known whether there is a configuration file. Only
/// `init` creates one: to the others a wrong home directory must not look like
/// a second, empty configuration somewhere else.
pub open spec fn after_search(command: Command, layout: LayoutView, found: bool) -> TurnView {
    match (command, found) {
        (Command::Init, true) => loading(
            layout,
            seq![said("kept existing "@ + lossy_text(config_file(layout.config_dir)))],
        ),
        (Command::Init, false) => asking(
            StageView::Starting,
            ActionView::Perform(starter(layout)),
        ),
        (Command::Doctor, false) => examining(layout, ConfigSource::Missing),
        (_, true) => loading(layout, seq![]),
        (_, false) => failing(no_config(layout)),
    }
}

/// What follows once it is known whether there is a configuration file.
fn search(command: Command, layout: &Layout, found: bool) -> (result: Turn)
    ensures
        result@ == after_search(command, layout@, found),
{
    match (command, found) {
        (Command::Init, true) => say(
            "kept existing ".to_owned().concat(layout.config_file().display().as_str()),
            Stage::Loading,
            Action::LoadConfig(layout.config_file()),
        ),
        (Command::Init, false) => ask(
            Stage::Starting,
            Action::Perform(
                Step::Write {
                    path: layout.config_file(),
                    contents: STARTER_CONFIG.to_owned(),
                    label: layout.config_file().display(),
                },
            ),
        ),
        (Command::Doctor, false) => examine(layout, ConfigSource::Missing),
        (_, true) => ask(Stage::Loading, Action::LoadConfig(layout.config_file())),
        (_, false) => fail(
            "no config at ".to_owned().concat(layout.config_file().display().as_str()).concat(
                "; run cloakroom init",
            ).as_str(),
        ),
    }
}

////////////////////////////////////////////////////////////////////////////
// The managed include

/// The paths that texts spell.
pub open spec fn spelled(list: Seq<Seq<char>>) -> Seq<Seq<u8>> {
    list.map_values(|text: Seq<char>| encode_utf8(text))
}

/// The paths that texts spell.
fn spell(list: &Vec<String>) -> (result: Vec<FilePath>)
    ensures
        paths_of(result@) == spelled(texts(list@)),
{
    let ghost wanted = spelled(texts(list@));
    let mut paths: Vec<FilePath> = Vec::new();
    let mut i: usize = 0;
    while i < list.len()
        invariant
            i <= list@.len(),
            wanted == spelled(texts(list@)),
            paths_of(paths@) == wanted.take(i as int),
        decreases list@.len() - i,
    {
        let ghost earlier = paths@;
        let path = FilePath::from_text(list[i].as_str());
        paths.push(path);
        i = i + 1;
        assert(paths_of(paths@) == paths_of(earlier).push(path@));
        assert(wanted.take(i as int) == wanted.take(i - 1).push(path@));
    }
    assert(wanted.take(i as int) == wanted);
    paths
}

/// Asks what the includes lead to, compared with the root.
pub open spec fn comparing(layout: LayoutView, stage: StageView, includes: Seq<Seq<char>>)
    -> TurnView {
    asking(
        stage,
        ActionView::Resolve {
            paths: spelled(includes),
            target: root_gitconfig(layout.config_dir),
        },
    )
}

/// What follows once the includes of the global gitconfig are listed.
pub open spec fn after_listing(layout: LayoutView, stage: StageView, output: GitOutput)
    -> TurnView {
    match listed_includes(output) {
        Ok(includes) => comparing(layout, stage, includes),
        Err(message) => failing(message),
    }
}

/// What follows once the includes of the global gitconfig are listed.
fn list(layout: &Layout, stage: Stage, output: &GitOutput) -> (result: Turn)
    ensures
        result@ == after_listing(layout@, stage@, *output),
{
    match global_include_paths(output) {
        Ok(includes) => ask(
            stage,
            Action::Resolve { paths: spell(&includes), target: layout.root_gitconfig() },
        ),
        Err(message) => fail(message.as_str()),
    }
}

/// What `init` does once it knows how many includes lead to the root.
pub open spec fn after_comparison(layout: LayoutView, count: nat) -> TurnView {
    if count > 0 {
        ending(
            seq![said("global gitconfig already includes "@ + layout.include_path)],
            RunStatus::Clean,
        )
    } else {
        asking(
            StageView::Adding,
            ActionView::RunGit { here: false, arguments: adding_arguments(layout.include_path) },
        )
    }
}

/// What `init` does once it knows how many includes lead to the root.
fn compare(layout: &Layout, count: usize) -> (result: Turn)
    ensures
        result@ == after_comparison(layout@, count as nat),
{
    if count > 0 {
        say(
            "global gitconfig already includes ".to_owned().concat(layout.include_path.as_str()),
            Stage::Finished,
            Action::Finish(RunStatus::Clean),
        )
    } else {
        ask(
            Stage::Adding,
            Action::RunGit { here: false, arguments: add_include(layout.include_path.as_str()) },
        )
    }
}

/// How `init` ends once git was asked to add the include.
pub open spec fn after_addition(layout: LayoutView, output: GitOutput) -> TurnView {
    match addition(output) {
        Ok(()) => ending(
            seq![
                said(
                    "added include.path "@ + layout.include_path + " to the global gitconfig"@,
                ),
            ],
            RunStatus::Clean,
        ),
        Err(message) => failing(message),
    }
}

/// How `init` ends once git was asked to add the include.
fn conclude(layout: &Layout, output: &GitOutput) -> (result: Turn)
    ensures
        result@ == after_addition(layout@, *output),
{
    match add_global_include(output) {
        Ok(()) => say(
            "added include.path ".to_owned().concat(layout.include_path.as_str()).concat(
                " to the global gitconfig",
            ),
            Stage::Finished,
            Action::Finish(RunStatus::Clean),
        ),
        Err(message) => fail(message.as_str()),
    }
}

/// What follows the last step of a publication: `init` goes on to the global
/// gitconfig, so a broken config stops it before that.
pub open spec fn published(command: Command, lines: Seq<LineView>) -> TurnView {
    match command {
        Command::Init => TurnView {
            stage: StageView::Listing,
            lines,
            action: ActionView::RunGit { here: false, arguments: listing_arguments() },
        },
        _ => ending(lines, RunStatus::Clean),
    }
}

/// Why a step was not performed.
pub open spec fn reason_of(event: Event) -> Seq<char> {
    match event {
        Event::Failed(message) => message@,
        _ => "unexpected answer"@,
    }
}

/// What is printed where the tree is in place but could not be pruned.
pub open spec fn leftovers(reason: Seq<char>) -> LineView {
    complained(
        reason + "; the new tree is in place, but stale objects are left: run cloakroom apply"@,
    )
}

/// What follows a step that was not performed. The run fails, unless only the
/// pruning is left: then the new root is in place, so nothing has failed that
/// git would see, and what is left behind is an issue.
pub open spec fn stopping(step: StepView, reason: Seq<char>) -> TurnView {
    match step {
        StepView::Prune { .. } => ending(seq![leftovers(reason)], RunStatus::Issues),
        _ => failing(reason),
    }
}

/// What follows a step that was not performed.
fn stop(step: &Step, event: &Event) -> (result: Turn)
    ensures
        result@ == stopping(step@, reason_of(*event)),
{
    let reason = match event {
        Event::Failed(message) => message.clone(),
        _ => "unexpected answer".to_owned(),
    };
    match step {
        Step::Prune { .. } => {
            let mut lines: Vec<Line> = Vec::new();
            let line = complain(
                reason.as_str().to_owned().concat(
                    "; the new tree is in place, but stale objects are left: run cloakroom apply",
                ).as_str(),
            );
            lines.push(line);
            assert(lines_of(lines@) == seq![leftovers(reason@)]);
            end(lines, RunStatus::Issues)
        },
        _ => fail(reason.as_str()),
    }
}

/// What follows a step of a publication.
pub open spec fn after_step(
    command: Command,
    steps: Seq<StepView>,
    index: int,
    event: Event,
) -> TurnView {
    if !(0 <= index < steps.len()) {
        misfit()
    } else {
        match step_lines(steps[index], event) {
            Some(lines) => if index + 1 < steps.len() {
                TurnView {
                    stage: StageView::Publishing { steps, index: index + 1 },
                    lines,
                    action: ActionView::Perform(steps[index + 1]),
                }
            } else {
                published(command, lines)
            },
            None => stopping(steps[index], reason_of(event)),
        }
    }
}

/// What follows a step of a publication.
fn advance(command: Command, steps: Vec<Step>, index: usize, event: &Event) -> (result: Turn)
    ensures
        result@ == after_step(command, steps_of(steps@), index as int, *event),
{
    let ghost all = steps_of(steps@);
    if index >= steps.len() {
        return reject();
    }
    assert(all[index as int] == steps@[index as int]@);
    match report_step(&steps[index], event) {
        Some(lines) => {
            if index + 1 < steps.len() {
                assert(all[index + 1] == steps@[index + 1]@);
                let next = steps[index + 1].copy();
                return Turn {
                    stage: Stage::Publishing { steps, index: index + 1 },
                    lines,
                    action: Action::Perform(next),
                };
            }
            match command {
                Command::Init => Turn {
                    stage: Stage::Listing,
                    lines,
                    action: Action::RunGit { here: false, arguments: list_includes() },
                },
                _ => end(lines, RunStatus::Clean),
            }
        },
        None => stop(&steps[index], event),
    }
}

/// What follows once the version of git is known.
pub open spec fn after_version(layout: LayoutView, config: ConfigView, output: GitOutput)
    -> TurnView {
    match reported_support(output) {
        Ok(support) => match refusal(support) {
            Some(message) => failing(message),
            None => publishing(layout, config),
        },
        Err(message) => failing(message),
    }
}

/// What follows once the version of git is known.
fn check_version(layout: &Layout, config: &Config, output: &GitOutput) -> (result: Turn)
    ensures
        result@ == after_version(layout@, config@, *output),
{
    match remote_rule_support(output) {
        Ok(support) => match ensure_remote_rule_support(support) {
            Ok(()) => publish(layout, config),
            Err(message) => fail(message.as_str()),
        },
        Err(message) => fail(message.as_str()),
    }
}

////////////////////////////////////////////////////////////////////////////
// doctor

/// What doctor knows once the configuration is checked.
pub open spec fn checkup_of(layout: LayoutView, source: ConfigSource) -> CheckupView {
    CheckupView {
        report: with_source(blank(), layout, source),
        config: trusted_config(source),
        evidence: Evidence { tree: None, includes: 0, support: RemoteRuleSupport::Unknown },
    }
}

/// Asks for the includes of the global gitconfig.
pub open spec fn wanting_includes(checkup: CheckupView) -> TurnView {
    asking(
        StageView::Examining(WantedView::Includes, checkup),
        ActionView::RunGit { here: false, arguments: listing_arguments() },
    )
}

/// The paths of objects.
pub open spec fn object_paths(config_dir: Seq<u8>, digests: Seq<Seq<char>>) -> Seq<Seq<u8>> {
    digests.map_values(|digest: Seq<char>| object_gitconfig(config_dir, digest))
}

/// What doctor asks for once the configuration is checked: comparing files
/// needs a config to compile, the rest does not.
pub open spec fn wanting_tree(layout: LayoutView, checkup: CheckupView) -> TurnView {
    match checkup.config {
        Some(config) => asking(
            StageView::Examining(WantedView::Tree, checkup),
            ActionView::ReadTree {
                root: root_gitconfig(layout.config_dir),
                objects: object_paths(layout.config_dir, keys(tree_of(config).objects)),
                directory: objects_dir(layout.config_dir),
            },
        ),
        None => wanting_includes(checkup),
    }
}

/// What doctor does with what became of reading the configuration file.
pub open spec fn examining(layout: LayoutView, source: ConfigSource) -> TurnView {
    wanting_tree(layout, checkup_of(layout, source))
}

/// Asks for the includes of the global gitconfig.
fn want_includes(checkup: Checkup) -> (result: Turn)
    ensures
        result@ == wanting_includes(checkup@),
{
    ask(
        Stage::Examining(Wanted::Includes, checkup),
        Action::RunGit { here: false, arguments: list_includes() },
    )
}

/// The paths of the objects that a configuration calls for.
fn list_objects(layout: &Layout, config: &Config) -> (result: Vec<FilePath>)
    ensures
        paths_of(result@) == object_paths(layout@.config_dir, keys(tree_of(config@).objects)),
{
    let compiled = compile(config);
    let ghost wanted = object_paths(layout@.config_dir, keys(compiled@.objects));
    let mut paths: Vec<FilePath> = Vec::new();
    let mut i: usize = 0;
    while i < compiled.objects.len()
        invariant
            i <= compiled@.objects.len(),
            wanted == object_paths(layout@.config_dir, keys(compiled@.objects)),
            paths_of(paths@) == wanted.take(i as int),
        decreases compiled@.objects.len() - i,
    {
        let ghost earlier = paths@;
        let path = layout.object_gitconfig(compiled.objects.key_at(i).as_str());
        paths.push(path);
        i = i + 1;
        assert(paths_of(paths@) == paths_of(earlier).push(path@));
        assert(wanted.take(i as int) == wanted.take(i - 1).push(path@));
    }
    assert(wanted.take(i as int) == wanted);
    paths
}

/// Checks the configuration.
fn begin_checkup(layout: &Layout, source: ConfigSource) -> (result: Checkup)
    ensures
        result@ == checkup_of(layout@, source),
{
    let mut doctor = Doctor::new();
    let config = check_config(&mut doctor, layout, source);
    let evidence = Evidence { tree: None, includes: 0, support: RemoteRuleSupport::Unknown };
    Checkup { doctor, config, evidence }
}

/// Asks for the generated tree, if there is a config to compare it with.
fn want_tree(layout: &Layout, checkup: Checkup) -> (result: Turn)
    ensures
        result@ == wanting_tree(layout@, checkup@),
{
    match &checkup.config {
        Some(valid) => {
            let objects = list_objects(layout, valid);
            ask(
                Stage::Examining(Wanted::Tree, checkup),
                Action::ReadTree {
                    root: layout.root_gitconfig(),
                    objects,
                    directory: layout.objects_dir(),
                },
            )
        },
        None => want_includes(checkup),
    }
}

/// Checks the configuration and asks for what the next check needs.
fn examine(layout: &Layout, source: ConfigSource) -> (result: Turn)
    ensures
        result@ == examining(layout@, source),
{
    want_tree(layout, begin_checkup(layout, source))
}

/// The path to resolve for telling whether a marker is genuine, if any.
pub open spec fn marker_origin(identity: IdentityView) -> Option<Seq<char>> {
    match identity.profile {
        Some(marker) => marker.origin,
        None => None,
    }
}

/// What the first of the paths resolves to.
pub open spec fn first_resolved(paths: Seq<ResolvedPathView>) -> Option<Seq<u8>> {
    if paths.len() > 0 {
        paths[0].resolved
    } else {
        None
    }
}

/// Whether the marker of an identity is genuine, by what its origin and the
/// directory of the objects resolve to.
pub open spec fn genuine(
    identity: IdentityView,
    paths: Seq<ResolvedPathView>,
    target: ResolvedPathView,
) -> bool {
    identity.profile is Some && generated_marker(
        identity.profile->0,
        first_resolved(paths),
        target.resolved,
    )
}

/// Decides `genuine`.
fn is_genuine(identity: &EffectiveIdentity, paths: &Vec<ResolvedPath>, target: &ResolvedPath)
    -> (result: bool)
    ensures
        result == genuine(identity@, resolved_paths(paths@), target@),
{
    match &identity.profile {
        Some(marker) => {
            let unresolved: Option<FilePath> = None;
            let origin = if paths.len() > 0 {
                &paths[0].resolved
            } else {
                &unresolved
            };
            assert(optional_path(*origin) == first_resolved(resolved_paths(paths@)));
            is_generated_marker(marker, origin, &target.resolved)
        },
        None => false,
    }
}

/// Asks for the repository.
pub open spec fn wanting_repository(checkup: CheckupView) -> TurnView {
    asking(
        StageView::Examining(WantedView::Repository, checkup),
        ActionView::RunGit { here: true, arguments: toplevel_arguments() },
    )
}

/// How doctor ends.
pub open spec fn diagnosed(
    layout: LayoutView,
    checkup: CheckupView,
    identity: Option<IdentityView>,
    marker_is_generated: bool,
) -> TurnView {
    reporting(
        completed(
            checkup.report,
            layout,
            checkup.config,
            checkup.evidence,
            identity,
            marker_is_generated,
        ),
    )
}

/// What doctor does with what came of its last action.
pub open spec fn after_examination(
    layout: LayoutView,
    wanted: WantedView,
    checkup: CheckupView,
    event: Event,
) -> TurnView {
    let evidence = checkup.evidence;
    match (wanted, event) {
        (WantedView::Tree, Event::Tree(tree)) => wanting_includes(
            CheckupView { evidence: Evidence { tree: Some(tree), ..evidence }, ..checkup },
        ),
        (WantedView::Includes, Event::Ran(output)) => after_listing(
            layout,
            StageView::Examining(WantedView::Targets, checkup),
            output,
        ),
        (WantedView::Targets, Event::Resolved { paths, target }) => {
            let count = leading_to(resolved_paths(paths@), target@) as usize;
            let counted = CheckupView {
                evidence: Evidence { includes: count, ..evidence },
                ..checkup
            };
            if asks_for_remotes(checkup.config) {
                asking(
                    StageView::Examining(WantedView::Version, counted),
                    ActionView::RunGit { here: false, arguments: version_arguments() },
                )
            } else {
                wanting_repository(counted)
            }
        },
        (WantedView::Version, Event::Ran(output)) => match reported_support(output) {
            Ok(support) => wanting_repository(
                CheckupView { evidence: Evidence { support, ..evidence }, ..checkup },
            ),
            Err(message) => failing(message),
        },
        (WantedView::Repository, Event::Ran(output)) => match toplevel(output) {
            Ok(Some(_)) => asking(
                StageView::Examining(WantedView::Identity, checkup),
                ActionView::RunGit { here: true, arguments: identity_arguments() },
            ),
            Ok(None) => diagnosed(layout, checkup, None, false),
            Err(message) => failing(message),
        },
        (WantedView::Identity, Event::Ran(output)) => match reported_identity(output) {
            Ok(identity) => match marker_origin(identity) {
                Some(origin) => asking(
                    StageView::Examining(WantedView::Marker(identity), checkup),
                    ActionView::Resolve {
                        paths: seq![encode_utf8(origin)],
                        target: objects_dir(layout.config_dir),
                    },
                ),
                None => diagnosed(layout, checkup, Some(identity), false),
            },
            Err(message) => failing(message),
        },
        (WantedView::Marker(identity), Event::Resolved { paths, target }) => diagnosed(
            layout,
            checkup,
            Some(identity),
            genuine(identity, resolved_paths(paths@), target@),
        ),
        (_, Event::Failed(message)) => failing(message@),
        _ => misfit(),
    }
}

/// Asks for the repository.
fn want_repository(checkup: Checkup) -> (result: Turn)
    ensures
        result@ == wanting_repository(checkup@),
{
    ask(
        Stage::Examining(Wanted::Repository, checkup),
        Action::RunGit { here: true, arguments: ask_toplevel() },
    )
}

/// How doctor ends.
fn diagnose(
    layout: &Layout,
    checkup: Checkup,
    identity: Option<EffectiveIdentity>,
    marker_is_generated: bool,
) -> (result: Turn)
    ensures
        result@ == diagnosed(
            layout@,
            checkup@,
            optional_identity(identity),
            marker_is_generated,
        ),
{
    let Checkup { doctor, config, evidence } = checkup;
    let made = crate::doctor::report(
        doctor,
        layout,
        &config,
        &evidence,
        &identity,
        marker_is_generated,
    );
    report(made.lines, made.status)
}

/// Asks what the origin of a marker resolves to.
fn trace(layout: &Layout, stage: Stage, origin: &str) -> (result: Turn)
    ensures
        result@ == asking(
            stage@,
            ActionView::Resolve {
                paths: seq![encode_utf8(origin@)],
                target: objects_dir(layout@.config_dir),
            },
        ),
{
    let mut paths: Vec<FilePath> = Vec::new();
    paths.push(FilePath::from_text(origin));
    assert(paths_of(paths@) == seq![encode_utf8(origin@)]);
    ask(stage, Action::Resolve { paths, target: layout.objects_dir() })
}

/// Where the marker of an identity comes from, if it has one from a file.
fn find_origin(identity: &EffectiveIdentity) -> (result: Option<String>)
    ensures
        optional_text(result) == marker_origin(identity@),
{
    match &identity.profile {
        Some(marker) => match &marker.origin {
            Some(origin) => Some(origin.clone()),
            None => None,
        },
        None => None,
    }
}

/// What doctor does once it has the identity.
fn examine_identity(layout: &Layout, checkup: Checkup, output: &GitOutput) -> (result: Turn)
    ensures
        result@ == after_examination(
            layout@,
            WantedView::Identity,
            checkup@,
            Event::Ran(*output),
        ),
{
    match effective_identity(output) {
        Ok(identity) => match find_origin(&identity) {
            Some(origin) => trace(
                layout,
                Stage::Examining(Wanted::Marker(identity), checkup),
                origin.as_str(),
            ),
            None => diagnose(layout, checkup, Some(identity), false),
        },
        Err(message) => fail(message.as_str()),
    }
}

/// What doctor does once it knows what the includes lead to.
fn examine_targets(checkup: Checkup, count: usize) -> (result: Turn)
    ensures
        result@ == (if asks_for_remotes(checkup@.config) {
            asking(
                StageView::Examining(
                    WantedView::Version,
                    CheckupView {
                        evidence: Evidence { includes: count, ..checkup@.evidence },
                        ..checkup@
                    },
                ),
                ActionView::RunGit { here: false, arguments: version_arguments() },
            )
        } else {
            wanting_repository(
                CheckupView {
                    evidence: Evidence { includes: count, ..checkup@.evidence },
                    ..checkup@
                },
            )
        }),
{
    let mut checkup = checkup;
    checkup.evidence.includes = count;
    let uses_remotes = match &checkup.config {
        Some(config) => config.uses_remote_rules(),
        None => false,
    };
    if uses_remotes {
        ask(
            Stage::Examining(Wanted::Version, checkup),
            Action::RunGit { here: false, arguments: ask_version() },
        )
    } else {
        want_repository(checkup)
    }
}

/// What doctor does with what came of its last action.
#[verifier::rlimit(40)]
fn resume_examination(layout: &Layout, wanted: Wanted, checkup: Checkup, event: Event) -> (result:
    Turn)
    ensures
        result@ == after_examination(layout@, wanted@, checkup@, event),
{
    let mut checkup = checkup;
    match (wanted, event) {
        (Wanted::Tree, Event::Tree(tree)) => {
            checkup.evidence.tree = Some(tree);
            want_includes(checkup)
        },
        (Wanted::Includes, Event::Ran(output)) => list(
            layout,
            Stage::Examining(Wanted::Targets, checkup),
            &output,
        ),
        (Wanted::Targets, Event::Resolved { paths, target }) => {
            let count = equivalent_global_include_count(&paths, &target);
            examine_targets(checkup, count)
        },
        (Wanted::Version, Event::Ran(output)) => match remote_rule_support(&output) {
            Ok(support) => {
                checkup.evidence.support = support;
                want_repository(checkup)
            },
            Err(message) => fail(message.as_str()),
        },
        (Wanted::Repository, Event::Ran(output)) => match repo_toplevel(&output) {
            Ok(Some(_)) => ask(
                Stage::Examining(Wanted::Identity, checkup),
                Action::RunGit { here: true, arguments: ask_identity() },
            ),
            Ok(None) => diagnose(layout, checkup, None, false),
            Err(message) => fail(message.as_str()),
        },
        (Wanted::Identity, Event::Ran(output)) => examine_identity(layout, checkup, &output),
        (Wanted::Marker(identity), Event::Resolved { paths, target }) => {
            let marker_is_generated = is_genuine(&identity, &paths, &target);
            diagnose(layout, checkup, Some(identity), marker_is_generated)
        },
        (_, Event::Failed(message)) => fail(message.as_str()),
        _ => reject(),
    }
}

////////////////////////////////////////////////////////////////////////////
// status

/// What status does once it has the identity.
pub open spec fn after_identification(
    layout: LayoutView,
    toplevel: Option<Seq<char>>,
    output: GitOutput,
) -> TurnView {
    match reported_identity(output) {
        Ok(identity) => match marker_origin(identity) {
            Some(origin) => asking(
                StageView::Tracing { toplevel, identity },
                ActionView::Resolve {
                    paths: seq![encode_utf8(origin)],
                    target: objects_dir(layout.config_dir),
                },
            ),
            None => reporting(identity_report(toplevel, identity, false)),
        },
        Err(message) => failing(message),
    }
}

/// What status does once it has the identity.
fn identify(layout: &Layout, toplevel: Option<String>, output: &GitOutput) -> (result: Turn)
    ensures
        result@ == after_identification(layout@, optional_text(toplevel), *output),
{
    match effective_identity(output) {
        Ok(identity) => match find_origin(&identity) {
            Some(origin) => trace(
                layout,
                Stage::Tracing { toplevel, identity },
                origin.as_str(),
            ),
            None => {
                let made = crate::status::report(&toplevel, &identity, false);
                report(made.lines, made.status)
            },
        },
        Err(message) => fail(message.as_str()),
    }
}

/// What status does once it knows the repository.
pub open spec fn after_location(output: GitOutput) -> TurnView {
    match toplevel(output) {
        Ok(root) => asking(
            StageView::Identifying(root),
            ActionView::RunGit { here: true, arguments: identity_arguments() },
        ),
        Err(message) => failing(message),
    }
}

/// What status does once it knows the repository.
fn locate(output: &GitOutput) -> (result: Turn)
    ensures
        result@ == after_location(*output),
{
    match repo_toplevel(output) {
        Ok(root) => ask(
            Stage::Identifying(root),
            Action::RunGit { here: true, arguments: ask_identity() },
        ),
        Err(message) => fail(message.as_str()),
    }
}

////////////////////////////////////////////////////////////////////////////
// Dispatch

/// The first turn of a command.
pub open spec fn first_turn(command: Command, layout: LayoutView) -> TurnView {
    match command {
        Command::Init => asking(
            StageView::Preparing,
            ActionView::Perform(StepView::Directory(objects_dir(layout.config_dir))),
        ),
        Command::Apply | Command::Doctor => asking(
            StageView::Seeking,
            ActionView::FindFile(config_file(layout.config_dir)),
        ),
        Command::Status => asking(
            StageView::Locating,
            ActionView::RunGit { here: true, arguments: toplevel_arguments() },
        ),
    }
}

/// What becomes of the configuration that a command has loaded.
pub open spec fn after_loading(command: Command, layout: LayoutView, config: RawConfig)
    -> TurnView {
    match command {
        Command::Doctor => examining(layout, ConfigSource::Read(config)),
        _ => applying(layout, config@),
    }
}

/// The turn that follows once it is known what came of the last action. A
/// failed action fails the run, except that doctor reports on a configuration
/// it could not load, and that pruning may be left to the next run.
pub open spec fn next_turn(command: Command, layout: LayoutView, stage: StageView, event: Event)
    -> TurnView {
    match (stage, event) {
        (StageView::Examining(wanted, checkup), _) => after_examination(
            layout,
            wanted,
            checkup,
            event,
        ),
        (StageView::Loading, Event::Failed(message)) => match command {
            Command::Doctor => examining(layout, ConfigSource::Unreadable(message)),
            _ => failing(message@),
        },
        (StageView::Publishing { steps, index }, _) => after_step(command, steps, index, event),
        (_, Event::Failed(message)) => failing(message@),
        (StageView::Preparing, Event::Done) => asking(
            StageView::Seeking,
            ActionView::FindFile(config_file(layout.config_dir)),
        ),
        (StageView::Seeking, Event::Found(found)) => after_search(command, layout, found),
        (StageView::Starting, Event::Wrote(_)) => loading(
            layout,
            seq![said("wrote "@ + lossy_text(config_file(layout.config_dir)))],
        ),
        (StageView::Loading, Event::Loaded(config)) => after_loading(command, layout, config),
        (StageView::Preflight(config), Event::Ran(output)) => after_version(
            layout,
            config,
            output,
        ),
        (StageView::Listing, Event::Ran(output)) => after_listing(
            layout,
            StageView::Comparing,
            output,
        ),
        (StageView::Comparing, Event::Resolved { paths, target }) => after_comparison(
            layout,
            leading_to(resolved_paths(paths@), target@),
        ),
        (StageView::Adding, Event::Ran(output)) => after_addition(layout, output),
        (StageView::Locating, Event::Ran(output)) => after_location(output),
        (StageView::Identifying(toplevel), Event::Ran(output)) => after_identification(
            layout,
            toplevel,
            output,
        ),
        (StageView::Tracing { toplevel, identity }, Event::Resolved { paths, target }) => reporting(
            identity_report(
                toplevel,
                identity,
                genuine(identity, resolved_paths(paths@), target@),
            ),
        ),
        _ => misfit(),
    }
}

/// One run of one command.
#[derive(Debug)]
pub struct Session {
    pub command: Command,
    pub layout: Layout,
}

/// Creates the config, compiles it, and points the global gitconfig at the
/// result. Idempotent: a second run keeps the existing config and adds no
/// second include, so it is safe to tell a user to run it again.
pub fn init(layout: &Layout) -> (result: Turn)
    ensures
        result@ == first_turn(Command::Init, layout@),
{
    ask(Stage::Preparing, Action::Perform(Step::Directory(layout.objects_dir())))
}

/// Compiles config.toml into the generated tree. Unlike `init` it refuses to
/// create a config, so a wrong HOME or XDG_CONFIG_HOME surfaces as an error
/// instead of a second, empty configuration somewhere else.
pub fn apply(layout: &Layout) -> (result: Turn)
    ensures
        result@ == first_turn(Command::Apply, layout@),
{
    ask(Stage::Seeking, Action::FindFile(layout.config_file()))
}

/// Reports the identity for the current directory. The report decides the
/// status.
pub fn status(layout: &Layout) -> (result: Turn)
    ensures
        result@ == first_turn(Command::Status, layout@),
{
    ask(Stage::Locating, Action::RunGit { here: true, arguments: ask_toplevel() })
}

/// Reports the health of the whole setup. Read-only, so it is safe to run
/// anywhere, and it never repairs.
pub fn doctor(layout: &Layout) -> (result: Turn)
    ensures
        result@ == first_turn(Command::Doctor, layout@),
{
    ask(Stage::Seeking, Action::FindFile(layout.config_file()))
}

impl Session {
    /// Dispatches the command: the first turn of the run.
    pub fn run(&self) -> (result: Turn)
        ensures
            result@ == first_turn(self.command, self.layout@),
    {
        match self.command {
            Command::Init => init(&self.layout),
            Command::Apply => apply(&self.layout),
            Command::Status => status(&self.layout),
            Command::Doctor => doctor(&self.layout),
        }
    }

    /// What becomes of the configuration that the command has loaded.
    fn load(&self, config: RawConfig) -> (result: Turn)
        ensures
            result@ == after_loading(self.command, self.layout@, config),
    {
        match self.command {
            Command::Doctor => examine(&self.layout, ConfigSource::Read(config)),
            _ => apply_with(&self.layout, config),
        }
    }

    /// The turn that follows once it is known what came of the last action. A
    /// failed action is operational: it prints once and ends the run at
    /// `Failure`, except that doctor reports on a configuration it could not
    /// load, and that a pruning that cannot be performed ends the run at
    /// `Issues`. Problems with the user's configuration are not failed actions;
    /// they are reported as lines.
    #[verifier::rlimit(40)]
    pub fn next(&self, stage: Stage, event: Event) -> (result: Turn)
        ensures
            result@ == next_turn(self.command, self.layout@, stage@, event),
    {
        let layout = &self.layout;
        match (stage, event) {
            (Stage::Examining(wanted, checkup), event) => resume_examination(
                layout,
                wanted,
                checkup,
                event,
            ),
            (Stage::Loading, Event::Failed(message)) => match self.command {
                Command::Doctor => examine(layout, ConfigSource::Unreadable(message)),
                _ => fail(message.as_str()),
            },
            (Stage::Publishing { steps, index }, event) => advance(
                self.command,
                steps,
                index,
                &event,
            ),
            (_, Event::Failed(message)) => fail(message.as_str()),
            (Stage::Preparing, Event::Done) => ask(
                Stage::Seeking,
                Action::FindFile(layout.config_file()),
            ),
            (Stage::Seeking, Event::Found(found)) => search(self.command, layout, found),
            (Stage::Starting, Event::Wrote(_)) => say(
                "wrote ".to_owned().concat(layout.config_file().display().as_str()),
                Stage::Loading,
                Action::LoadConfig(layout.config_file()),
            ),
            (Stage::Loading, Event::Loaded(config)) => self.load(config),
            (Stage::Preflight(config), Event::Ran(output)) => check_version(
                layout,
                &config,
                &output,
            ),
            (Stage::Listing, Event::Ran(output)) => list(layout, Stage::Comparing, &output),
            (Stage::Comparing, Event::Resolved { paths, target }) => compare(
                layout,
                equivalent_global_include_count(&paths, &target),
            ),
            (Stage::Adding, Event::Ran(output)) => conclude(layout, &output),
            (Stage::Locating, Event::Ran(output)) => locate(&output),
            (Stage::Identifying(toplevel), Event::Ran(output)) => identify(
                layout,
                toplevel,
                &output,
            ),
            (Stage::Tracing { toplevel, identity }, Event::Resolved { paths, target }) => {
                let marker_is_generated = is_genuine(&identity, &paths, &target);
                let made = crate::status::report(&toplevel, &identity, marker_is_generated);
                report(made.lines, made.status)
            },
            _ => reject(),
        }
    }
}

}
