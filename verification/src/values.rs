//! What the mathematical values say of the data: every field of it, and lists
//! item by item.

use vstd::prelude::*;

use crate::config::{
    raw_rules, valid_rules, ConditionView, Config, RawConfig, RawRule, Rule, RuleCondition,
};
use crate::doctor::{blank, optional_config, Doctor, Selection};
use crate::file_io::optional_bytes;
use crate::file_path::{optional_path, FilePath};
use crate::git::{is_outcome, resolved_paths, ResolvedPath};
use crate::identity::{
    is_identity, optional_entry, optional_identity, ConfigEntry, EffectiveIdentity, IdentityView,
};
use crate::order::{ascending, precedes, sorted};
use crate::paths::{is_layout, Layout, LayoutView};
use crate::profiles::Profile;
use crate::publication::{steps_of, Step, StepView};
use crate::render::Compiled;
use crate::run_status::RunStatus;
use crate::status::Report;
use crate::text::{contents, optional_text, texts, words};
use crate::turn::{
    lines_of, paths_of, Action, ActionView, Checkup, Line, Stage, StageView, Turn, Wanted,
    WantedView,
};

verus! {

/// Lists of data are lists of values, item by item.
pub proof fn law_lists_item_by_item(
    strings: Seq<String>,
    slices: Seq<&[u8]>,
    strs: Seq<&str>,
    written: Seq<RawRule>,
    rules: Seq<Rule>,
    steps: Seq<Step>,
    resolved: Seq<ResolvedPath>,
    lines: Seq<Line>,
    paths: Seq<FilePath>,
    index: int,
)
    ensures
        texts(strings).len() == strings.len(),
        0 <= index < strings.len() ==> texts(strings)[index] == strings[index]@,
        contents(slices).len() == slices.len(),
        0 <= index < slices.len() ==> contents(slices)[index] == slices[index]@,
        words(strs).len() == strs.len(),
        0 <= index < strs.len() ==> words(strs)[index] == strs[index]@,
        raw_rules(written).len() == written.len(),
        0 <= index < written.len() ==> raw_rules(written)[index] == written[index]@,
        valid_rules(rules).len() == rules.len(),
        0 <= index < rules.len() ==> valid_rules(rules)[index] == rules[index]@,
        steps_of(steps).len() == steps.len(),
        0 <= index < steps.len() ==> steps_of(steps)[index] == steps[index]@,
        resolved_paths(resolved).len() == resolved.len(),
        0 <= index < resolved.len() ==> resolved_paths(resolved)[index] == resolved[index]@,
        lines_of(lines).len() == lines.len(),
        0 <= index < lines.len() ==> lines_of(lines)[index] == lines[index]@,
        paths_of(paths).len() == paths.len(),
        0 <= index < paths.len() ==> paths_of(paths)[index] == paths[index]@,
{
}

/// Optional data is an optional value.
pub proof fn law_options_keep_what_they_hold(
    text: Option<String>,
    bytes: Option<Vec<u8>>,
    path: Option<FilePath>,
    entry: Option<ConfigEntry>,
    identity: Option<EffectiveIdentity>,
    config: Option<Config>,
)
    ensures
        optional_text(text) is Some <==> text is Some,
        text is Some ==> optional_text(text)->0 == (text->0)@,
        optional_bytes(bytes) is Some <==> bytes is Some,
        bytes is Some ==> optional_bytes(bytes)->0 == (bytes->0)@,
        optional_path(path) is Some <==> path is Some,
        path is Some ==> optional_path(path)->0 == (path->0)@,
        optional_entry(entry) is Some <==> entry is Some,
        entry is Some ==> optional_entry(entry)->0 == (entry->0)@,
        optional_identity(identity) is Some <==> identity is Some,
        identity is Some ==> optional_identity(identity)->0 == (identity->0)@,
        optional_config(config) is Some <==> config is Some,
        config is Some ==> optional_config(config)->0 == (config->0)@,
{
}

/// Outcomes are the expected ones exactly if both are successes with one value
/// or both are errors with one message.
pub proof fn law_outcomes_are_the_expected_ones<T>(
    outcome: Result<T, String>,
    expected: Result<T, Seq<char>>,
    made: Result<Layout, String>,
    layout: Result<LayoutView, Seq<char>>,
    read: Result<EffectiveIdentity, String>,
    identity: Result<IdentityView, Seq<char>>,
)
    ensures
        is_outcome(outcome, expected) ==> (outcome is Ok <==> expected is Ok),
        is_outcome(outcome, expected) && outcome is Ok ==> outcome->Ok_0 == expected->Ok_0,
        is_outcome(outcome, expected) && outcome is Err ==> (outcome->Err_0)@ == expected->Err_0,
        is_layout(made, layout) ==> (made is Ok <==> layout is Ok),
        is_layout(made, layout) && made is Ok ==> (made->Ok_0)@ == layout->Ok_0,
        is_layout(made, layout) && made is Err ==> (made->Err_0)@ == layout->Err_0,
        is_identity(read, identity) ==> (read is Ok <==> identity is Ok),
        is_identity(read, identity) && read is Ok ==> (read->Ok_0)@ == identity->Ok_0,
        is_identity(read, identity) && read is Err ==> (read->Err_0)@ == identity->Err_0,
{
}

/// A configuration is its profiles and its rules, with every field of each.
pub proof fn law_configurations_field_by_field(
    profile: Profile,
    written: RawRule,
    raw: RawConfig,
    rule: Rule,
    config: Config,
    compiled: Compiled,
)
    ensures
        profile@.name == profile.name@,
        profile@.email == profile.email@,
        written@.profile == written.profile@,
        written@.path == optional_text(written.path),
        written@.remotes == texts(written.remotes@),
        written@.case_insensitive == written.case_insensitive,
        raw@.profiles == raw.profiles@,
        raw@.rules == raw_rules(raw.rules@),
        rule@.profile == rule.profile@,
        rule@.condition == rule.condition@,
        rule.condition matches RuleCondition::Path { path, case_insensitive }
            ==> rule.condition@ == (ConditionView::Path { path: path@, case_insensitive }),
        rule.condition matches RuleCondition::Remotes { patterns } ==> rule.condition@ == (
        ConditionView::Remotes { patterns: texts(patterns@) }),
        config@.profiles == config.profiles@,
        config@.rules == valid_rules(config.rules@),
        compiled@.root == compiled.root@,
        compiled@.objects == compiled.objects@,
{
}

/// An identity is its three values, each with its scope, its origin and what
/// it says.
pub proof fn law_identities_field_by_field(
    entry: ConfigEntry,
    identity: EffectiveIdentity,
    path: FilePath,
    resolved: ResolvedPath,
    layout: Layout,
)
    ensures
        entry@.scope == entry.scope@,
        entry@.origin == optional_text(entry.origin),
        entry@.value == entry.value@,
        identity@.profile == optional_entry(identity.profile),
        identity@.name == optional_entry(identity.name),
        identity@.email == optional_entry(identity.email),
        path@ == path.bytes@,
        resolved@.path == resolved.path@,
        resolved@.resolved == optional_path(resolved.resolved),
        layout@.config_dir == layout.config_dir@,
        layout@.include_path == layout.include_path@,
{
}

/// A report is its lines and its status, and starts with none and clean.
pub proof fn law_reports_field_by_field(report: Report, doctor: Doctor, selection: Selection)
    ensures
        report@.lines == texts(report.lines@),
        report@.status == report.status,
        doctor@.lines == texts(doctor.lines@),
        doctor@.status == doctor.status,
        selection@ == texts(selection.profiles@),
        blank().lines.len() == 0,
        blank().status == RunStatus::Clean,
{
}

/// A turn is its stage, its lines with their streams, and its action.
pub proof fn law_turns_field_by_field(line: Line, turn: Turn, checkup: Checkup)
    ensures
        line@.text == line.text@,
        line@.error == line.error,
        turn@.stage == turn.stage@,
        turn@.lines == lines_of(turn.lines@),
        turn@.action == turn.action@,
        checkup@.report == checkup.doctor@,
        checkup@.config == optional_config(checkup.config),
        checkup@.evidence == checkup.evidence,
{
}

/// A step is the same step, with every field of it.
pub proof fn law_steps_field_by_field(step: Step)
    ensures
        step matches Step::Directory(path) ==> step@ == StepView::Directory(path@),
        step matches Step::Write { path, contents, label } ==> step@ == (StepView::Write {
            path: path@,
            contents: contents@,
            label: label@,
        }),
        step matches Step::Prune { directory, keep } ==> step@ == (StepView::Prune {
            directory: directory@,
            keep: texts(keep@),
        }),
{
}

/// An action is the same action, with every field of it.
pub proof fn law_actions_field_by_field(action: Action)
    ensures
        action matches Action::Perform(step) ==> action@ == ActionView::Perform(step@),
        action matches Action::FindFile(path) ==> action@ == ActionView::FindFile(path@),
        action matches Action::LoadConfig(path) ==> action@ == ActionView::LoadConfig(path@),
        action matches Action::RunGit { here, arguments } ==> action@ == (ActionView::RunGit {
            here,
            arguments: texts(arguments@),
        }),
        action matches Action::ReadTree { root, objects, directory } ==> action@ == (
        ActionView::ReadTree {
            root: root@,
            objects: paths_of(objects@),
            directory: directory@,
        }),
        action matches Action::Resolve { paths, target } ==> action@ == (ActionView::Resolve {
            paths: paths_of(paths@),
            target: target@,
        }),
        action matches Action::Finish(status) ==> action@ == ActionView::Finish(status),
{
}

/// A stage is the same stage, with every field of it.
pub proof fn law_stages_field_by_field(stage: Stage, wanted: Wanted)
    ensures
        stage is Preparing <==> stage@ is Preparing,
        stage is Seeking <==> stage@ is Seeking,
        stage is Starting <==> stage@ is Starting,
        stage is Loading <==> stage@ is Loading,
        stage is Listing <==> stage@ is Listing,
        stage is Comparing <==> stage@ is Comparing,
        stage is Adding <==> stage@ is Adding,
        stage is Locating <==> stage@ is Locating,
        stage is Finished <==> stage@ is Finished,
        stage matches Stage::Preflight(config) ==> stage@ == StageView::Preflight(config@),
        stage matches Stage::Publishing { steps, index } ==> stage@ == (StageView::Publishing {
            steps: steps_of(steps@),
            index: index as int,
        }),
        stage matches Stage::Identifying(toplevel) ==> stage@ == StageView::Identifying(
            optional_text(toplevel),
        ),
        stage matches Stage::Tracing { toplevel, identity } ==> stage@ == (StageView::Tracing {
            toplevel: optional_text(toplevel),
            identity: identity@,
        }),
        stage matches Stage::Examining(wanted, checkup) ==> stage@ == StageView::Examining(
            wanted@,
            checkup@,
        ),
        wanted is Tree <==> wanted@ is Tree,
        wanted is Includes <==> wanted@ is Includes,
        wanted is Targets <==> wanted@ is Targets,
        wanted is Version <==> wanted@ is Version,
        wanted is Repository <==> wanted@ is Repository,
        wanted is Identity <==> wanted@ is Identity,
        wanted matches Wanted::Marker(identity) ==> wanted@ == WantedView::Marker(identity@),
{
}

/// Texts are in ascending order exactly if each comes before every later one,
/// and sorted exactly if none comes before an earlier one.
pub proof fn law_ordered_lists(list: Seq<Seq<char>>, first: int, second: int)
    requires
        0 <= first < second < list.len(),
    ensures
        ascending(list) ==> precedes(list[first], list[second]),
        sorted(list) ==> !precedes(list[second], list[first]),
{
}

}
