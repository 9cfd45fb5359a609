//! What holds of every run: what each command may do, in which order, how it
//! ends and where it speaks.

use vstd::prelude::*;

use crate::app::{
    after_examination, after_step, checkup_of, diagnosed, examining, first_turn, genuine, next_turn,
    publishing, refusal, removal, starter, step_lines, wanting_tree,
};
use crate::cli::Command;
use crate::config::{
    acceptable, accepted, findings, law_accepted_configurations_are_sound,
    law_validation_accepts_exactly_the_acceptable, sound, uses_remotes, ConfigView, RawConfig,
};
use crate::diagnosis::law_doctor_has_issues_exactly_if_it_says_so;
use crate::doctor::{blank, completed, trusted_config, with_source, ConfigSource};
use crate::git::{
    adding_arguments, leading_to, listing_arguments, reported_support, resolved_paths,
    toplevel_arguments, version_arguments, GitOutput, RemoteRuleSupport,
};
use crate::identity::{identity_arguments, reported_identity, IdentityView};
use crate::paths::{config_file, objects_dir, root_gitconfig, LayoutView};
use crate::publication::{
    law_the_tree_stays_readable, lemma_paths_of_a_publication, lemma_with_the_root_is_readable,
    performed, publication, readable, same_file, StepView,
};
use crate::render::tree_of;
use crate::run_status::RunStatus;
use crate::status::{identity_report, ReportView};
use crate::text::texts;
use crate::turn::{
    complained, ending, failing, reporting, said, ActionView, CheckupView, Event, LineView,
    StageView, TurnView, WantedView,
};

verus! {

/// Whether `steps` publish the tree of a sound configuration.
#[verifier::opaque]
pub open spec fn publishes(config_dir: Seq<u8>, steps: Seq<StepView>) -> bool {
    exists|config: ConfigView|
        sound(config) && steps == #[trigger] publication(config_dir, tree_of(config))
}

/// Whether a checkup starts from what became of some configuration file.
#[verifier::opaque]
pub open spec fn checks(layout: LayoutView, checkup: CheckupView) -> bool {
    exists|source: ConfigSource|
        checkup.report == #[trigger] with_source(blank(), layout, source) && checkup.config
            == trusted_config(source)
}

/// Whether a run of `command` can stand at `stage`. In particular, what it
/// publishes is the tree of a sound configuration.
pub open spec fn belongs(command: Command, layout: LayoutView, stage: StageView) -> bool {
    match stage {
        StageView::Preparing
        | StageView::Starting
        | StageView::Listing
        | StageView::Comparing
        | StageView::Adding => command == Command::Init,
        StageView::Seeking | StageView::Loading => command != Command::Status,
        StageView::Preflight(config) => (command == Command::Init || command == Command::Apply)
            && sound(config) && uses_remotes(config),
        StageView::Publishing { steps, index } => (command == Command::Init || command
            == Command::Apply) && 0 <= index < steps.len() && publishes(layout.config_dir, steps),
        StageView::Locating | StageView::Identifying(_) | StageView::Tracing { .. } => command
            == Command::Status,
        StageView::Examining(_, checkup) => command == Command::Doctor && checks(layout, checkup),
        StageView::Finished => true,
    }
}

proof fn lemma_publishing_belongs(command: Command, layout: LayoutView, config: ConfigView)
    requires
        command == Command::Init || command == Command::Apply,
        sound(config),
    ensures
        belongs(command, layout, publishing(layout, config).stage),
{
    let steps = publication(layout.config_dir, tree_of(config));
    reveal(publishes);
    assert(steps.len() >= 3);
    assert(publishes(layout.config_dir, steps));
}

proof fn lemma_examining_belongs(layout: LayoutView, source: ConfigSource)
    ensures
        belongs(Command::Doctor, layout, examining(layout, source).stage),
{
    let checkup = checkup_of(layout, source);
    lemma_checkup_starts(layout, source);
    lemma_examining_keeps(layout, checkup);
}

proof fn lemma_checkup_starts(layout: LayoutView, source: ConfigSource)
    ensures
        checks(layout, checkup_of(layout, source)),
{
    reveal(checks);
}

proof fn lemma_examining_keeps(layout: LayoutView, checkup: CheckupView)
    ensures
        wanting_tree(layout, checkup).stage matches StageView::Examining(_, later) && later
            == checkup,
{
}

proof fn lemma_search_belongs(command: Command, layout: LayoutView, event: Event)
    requires
        command != Command::Status,
    ensures
        belongs(command, layout, next_turn(command, layout, StageView::Seeking, event).stage),
{
    lemma_examining_belongs(layout, ConfigSource::Missing);
}

proof fn lemma_loading_belongs(command: Command, layout: LayoutView, event: Event)
    requires
        command != Command::Status,
    ensures
        belongs(command, layout, next_turn(command, layout, StageView::Loading, event).stage),
{
    match event {
        Event::Failed(message) => {
            lemma_examining_belongs(layout, ConfigSource::Unreadable(message));
        },
        Event::Loaded(config) => {
            lemma_examining_belongs(layout, ConfigSource::Read(config));
            if command != Command::Doctor && findings(config@).len() == 0 {
                law_accepted_configurations_are_sound(config@);
                lemma_publishing_belongs(command, layout, accepted(config@));
            }
        },
        _ => {},
    }
}

/// A run never leaves the stages of its command.
#[verifier::rlimit(40)]
pub proof fn law_runs_stay_with_their_command(
    command: Command,
    layout: LayoutView,
    stage: StageView,
    event: Event,
)
    requires
        belongs(command, layout, stage),
    ensures
        belongs(command, layout, first_turn(command, layout).stage),
        belongs(command, layout, next_turn(command, layout, stage, event).stage),
{
    match stage {
        StageView::Seeking => {
            lemma_search_belongs(command, layout, event);
        },
        StageView::Loading => {
            lemma_loading_belongs(command, layout, event);
        },
        StageView::Preflight(config) => {
            lemma_publishing_belongs(command, layout, config);
        },
        StageView::Examining(wanted, checkup) => {
            lemma_checkup_is_kept(layout, wanted, checkup, event);
        },
        _ => {},
    }
}

/// Examining adds to the evidence alone.
#[verifier::rlimit(40)]
proof fn lemma_examination_adds_evidence(
    layout: LayoutView,
    wanted: WantedView,
    checkup: CheckupView,
    event: Event,
)
    ensures
        match after_examination(layout, wanted, checkup, event).stage {
            StageView::Examining(_, later) => later.report == checkup.report && later.config
                == checkup.config,
            StageView::Finished => true,
            _ => false,
        },
{
}

proof fn lemma_checkup_is_kept(
    layout: LayoutView,
    wanted: WantedView,
    checkup: CheckupView,
    event: Event,
)
    requires
        checks(layout, checkup),
    ensures
        belongs(
            Command::Doctor,
            layout,
            after_examination(layout, wanted, checkup, event).stage,
        ),
{
    lemma_examination_adds_evidence(layout, wanted, checkup, event);
    reveal(checks);
}

/// Whether git only reads when run with these arguments.
pub open spec fn only_reads(arguments: Seq<Seq<char>>) -> bool {
    ||| arguments == version_arguments()
    ||| arguments == listing_arguments()
    ||| arguments == toplevel_arguments()
    ||| arguments == identity_arguments()
}

/// Whether `step` is one of publishing the tree of a sound configuration.
pub open spec fn publishing_step(config_dir: Seq<u8>, step: StepView) -> bool {
    exists|steps: Seq<StepView>, index: int|
        #[trigger] publishes(config_dir, steps) && 0 <= index < steps.len() && step
            == #[trigger] steps[index]
}

/// Whether a run of `command` may ask for `action`.
pub open spec fn permitted(command: Command, layout: LayoutView, action: ActionView) -> bool {
    match action {
        ActionView::Perform(step) => match command {
            Command::Init => step == StepView::Directory(objects_dir(layout.config_dir)) || step
                == starter(layout) || publishing_step(layout.config_dir, step),
            Command::Apply => publishing_step(layout.config_dir, step),
            Command::Status | Command::Doctor => false,
        },
        ActionView::RunGit { arguments, .. } => only_reads(arguments) || (command == Command::Init
            && arguments == adding_arguments(layout.include_path)),
        _ => true,
    }
}

proof fn lemma_first_step_permitted(command: Command, layout: LayoutView, config: ConfigView)
    requires
        command == Command::Init || command == Command::Apply,
        sound(config),
    ensures
        permitted(command, layout, publishing(layout, config).action),
{
    let steps = publication(layout.config_dir, tree_of(config));
    reveal(publishes);
    assert(steps.len() >= 3);
    assert(publishes(layout.config_dir, steps));
    assert(publishing_step(layout.config_dir, steps[0]));
}

/// What each command may do: only `init` and `apply` write files, and those
/// are the steps of publishing a sound configuration and, for `init`, the
/// starter configuration. Git is only ever asked to read, except that `init`
/// may ask it to add the managed include. So `status` and `doctor` are
/// read-only, and `apply` never creates a configuration.
#[verifier::rlimit(40)]
pub proof fn law_commands_do_only_what_they_may(
    command: Command,
    layout: LayoutView,
    stage: StageView,
    event: Event,
)
    requires
        belongs(command, layout, stage),
    ensures
        permitted(command, layout, first_turn(command, layout).action),
        permitted(command, layout, next_turn(command, layout, stage, event).action),
{
    match (stage, event) {
        (StageView::Loading, Event::Loaded(config)) => {
            if command != Command::Doctor && findings(config@).len() == 0 {
                law_accepted_configurations_are_sound(config@);
                lemma_first_step_permitted(command, layout, accepted(config@));
            }
        },
        (StageView::Preflight(config), _) => {
            lemma_first_step_permitted(command, layout, config);
        },
        (StageView::Publishing { steps, index }, _) => {
            if index + 1 < steps.len() {
                assert(publishing_step(layout.config_dir, steps[index + 1]));
            }
        },
        _ => {},
    }
}

/// No step of a publication writes the configuration file: it is the user's.
pub proof fn law_publishing_spares_the_configuration(config_dir: Seq<u8>, step: StepView)
    requires
        publishing_step(config_dir, step),
    ensures
        step matches StepView::Write { path, .. } ==> path != config_file(config_dir),
{
    let (steps, index) = choose|steps: Seq<StepView>, index: int|
        #[trigger] publishes(config_dir, steps) && 0 <= index < steps.len() && step
            == #[trigger] steps[index];
    reveal(publishes);
    let config = choose|config: ConfigView|
        sound(config) && steps == #[trigger] publication(config_dir, tree_of(config));
    lemma_paths_of_a_publication(config_dir, config, index);
}

/// The managed include is added by `init` alone, and only once the includes of
/// the global gitconfig are known and none of them leads to the root.
#[verifier::rlimit(40)]
pub proof fn law_the_include_is_added_at_most_once(
    command: Command,
    layout: LayoutView,
    stage: StageView,
    event: Event,
)
    requires
        next_turn(command, layout, stage, event).action matches ActionView::RunGit {
            arguments,
            ..
        } && arguments == adding_arguments(layout.include_path),
    ensures
        belongs(command, layout, stage) ==> command == Command::Init,
        stage is Comparing,
        event matches Event::Resolved { paths, target } && leading_to(
            resolved_paths(paths@),
            target@,
        ) == 0,
{
    lemma_adding_is_no_reading(layout.include_path);
}

proof fn lemma_adding_is_no_reading(path: Seq<char>)
    ensures
        !only_reads(adding_arguments(path)),
{
    reveal_strlit("--global");
    reveal_strlit("--null");
    let adding = adding_arguments(path);
    assert(adding.len() == 5);
    assert(version_arguments().len() == 1);
    assert(toplevel_arguments().len() == 2);
    assert(listing_arguments().len() == 6);
    assert(adding[1].len() == 8);
    assert(identity_arguments()[1].len() == 6);
}

/// The order of `init`: the includes are compared only once they are listed,
/// and they are listed only once the last step of the publication is done. So
/// the global gitconfig is never touched before the tree is in place.
#[verifier::rlimit(40)]
pub proof fn law_init_publishes_before_it_includes(
    layout: LayoutView,
    stage: StageView,
    event: Event,
)
    requires
        belongs(Command::Init, layout, stage),
    ensures
        next_turn(Command::Init, layout, stage, event).stage is Comparing ==> stage is Listing,
        next_turn(Command::Init, layout, stage, event).stage is Listing ==> (stage matches
            StageView::Publishing { steps, index } && index == steps.len() - 1 && step_lines(
            steps[index],
            event,
        ) is Some),
{
}

/// A configuration with findings is refused: every finding is printed, in
/// order, nothing is written, and the run fails.
pub proof fn law_invalid_configurations_are_refused(
    command: Command,
    layout: LayoutView,
    config: RawConfig,
)
    requires
        command == Command::Init || command == Command::Apply,
        !acceptable(config@),
    ensures
        findings(config@).len() > 0,
        next_turn(command, layout, StageView::Loading, Event::Loaded(config)) == ending(
            findings(config@).map_values(|finding: Seq<char>| complained(finding)),
            RunStatus::Failure,
        ),
{
    law_validation_accepts_exactly_the_acceptable(config@);
}

/// A git that is too old for remote rules, or whose version is unknown, is
/// refused with the reason, and so is one that cannot tell its version:
/// nothing is written, and the run fails.
pub proof fn law_unsupported_git_is_refused(
    command: Command,
    layout: LayoutView,
    config: ConfigView,
    output: GitOutput,
)
    requires
        reported_support(output) != Ok::<RemoteRuleSupport, Seq<char>>(
            RemoteRuleSupport::Supported,
        ),
    ensures
        next_turn(command, layout, StageView::Preflight(config), Event::Ran(output)) == failing(
            match reported_support(output) {
                Ok(support) => refusal(support)->0,
                Err(message) => message,
            },
        ),
        reported_support(output) matches Ok(support) ==> refusal(support) is Some,
{
}

/// Publishing starts only with a configuration that has no finding, and, if it
/// has remote rules, only once git is known to support them.
#[verifier::rlimit(40)]
pub proof fn law_publishing_starts_only_with_what_git_supports(
    command: Command,
    layout: LayoutView,
    stage: StageView,
    event: Event,
)
    requires
        !(stage is Publishing),
        next_turn(command, layout, stage, event).stage is Publishing,
    ensures
        match event {
            Event::Loaded(config) => stage is Loading && findings(config@).len() == 0
                && !uses_remotes(accepted(config@)),
            Event::Ran(output) => stage is Preflight && reported_support(output) == Ok::<
                RemoteRuleSupport,
                Seq<char>,
            >(RemoteRuleSupport::Supported),
            _ => false,
        },
{
}

/// A publication that fails leaves the previous root intact, and git can still
/// follow it: whatever step it fails at, the root is as it was before the
/// first one, and every object that it names is there.
pub proof fn law_a_failed_publication_leaves_the_previous_root(
    files: Map<Seq<u8>, Seq<u8>>,
    command: Command,
    layout: LayoutView,
    previous: ConfigView,
    config: ConfigView,
    index: int,
    event: Event,
)
    requires
        sound(config),
        files.contains_key(root_gitconfig(layout.config_dir)) ==> readable(
            files,
            layout.config_dir,
            previous,
        ),
        0 <= index < publication(layout.config_dir, tree_of(config)).len(),
        next_turn(
            command,
            layout,
            StageView::Publishing {
                steps: publication(layout.config_dir, tree_of(config)),
                index,
            },
            event,
        ).action == ActionView::Finish(RunStatus::Failure),
    ensures
        ({
            let root = root_gitconfig(layout.config_dir);
            let after = performed(
                files,
                publication(layout.config_dir, tree_of(config)).take(index),
            );
            &&& same_file(files, after, root)
            &&& after.contains_key(root) ==> readable(after, layout.config_dir, previous)
        }),
{
    let steps = publication(layout.config_dir, tree_of(config));
    assert(steps[steps.len() - 1] is Prune);
    law_the_tree_stays_readable(files, layout.config_dir, previous, config, index);
}

/// A publication that cannot prune is not a failure: the tree of the new
/// configuration is in place but for the objects that are left, and the run
/// ends with issues.
pub proof fn law_a_failed_prune_leaves_the_new_tree(
    files: Map<Seq<u8>, Seq<u8>>,
    command: Command,
    layout: LayoutView,
    config: ConfigView,
    event: Event,
)
    requires
        sound(config),
        !(event is Pruned),
    ensures
        ({
            let steps = publication(layout.config_dir, tree_of(config));
            let index = steps.len() - 1;
            let after = performed(files, steps.take(index));
            &&& next_turn(
                command,
                layout,
                StageView::Publishing { steps, index },
                event,
            ).action == ActionView::Finish(RunStatus::Issues)
            &&& readable(after, layout.config_dir, config)
        }),
{
    let steps = publication(layout.config_dir, tree_of(config));
    let index = steps.len() - 1;
    assert(steps[index] is Prune);
    lemma_with_the_root_is_readable(files, layout.config_dir, config);
}

/// How far a run still has to go: the later the phase, the smaller the number.
pub open spec fn phase(stage: StageView) -> nat {
    match stage {
        StageView::Preparing => 20,
        StageView::Seeking => 19,
        StageView::Starting => 18,
        StageView::Loading => 17,
        StageView::Preflight(_) => 16,
        StageView::Publishing { .. } => 15,
        StageView::Listing => 14,
        StageView::Comparing => 13,
        StageView::Adding => 12,
        StageView::Examining(wanted, _) => match wanted {
            WantedView::Tree => 11,
            WantedView::Includes => 10,
            WantedView::Targets => 9,
            WantedView::Version => 8,
            WantedView::Repository => 7,
            WantedView::Identity => 6,
            WantedView::Marker(_) => 5,
        },
        StageView::Locating => 3,
        StageView::Identifying(_) => 2,
        StageView::Tracing { .. } => 1,
        StageView::Finished => 0,
    }
}

/// How many steps of a publication are left.
pub open spec fn steps_left(stage: StageView) -> int {
    match stage {
        StageView::Publishing { steps, index } => steps.len() - index,
        _ => 0,
    }
}

/// Whether a turn brings a run on from `stage`: to a later phase, or one step
/// further in the publication. A turn that ends the run says so, and no other
/// does.
pub open spec fn moves_on(stage: StageView, turn: TurnView) -> bool {
    &&& phase(turn.stage) < phase(stage) || (phase(turn.stage) == phase(stage) && 0 < steps_left(
        turn.stage,
    ) < steps_left(stage))
    &&& turn.stage is Finished <==> turn.action is Finish
}

#[verifier::rlimit(40)]
proof fn lemma_examination_moves_on(
    layout: LayoutView,
    wanted: WantedView,
    checkup: CheckupView,
    event: Event,
)
    ensures
        moves_on(
            StageView::Examining(wanted, checkup),
            after_examination(layout, wanted, checkup, event),
        ),
{
}

proof fn lemma_publication_moves_on(
    command: Command,
    steps: Seq<StepView>,
    index: int,
    event: Event,
)
    ensures
        moves_on(
            StageView::Publishing { steps, index },
            after_step(command, steps, index, event),
        ),
{
}

#[verifier::rlimit(40)]
proof fn lemma_search_moves_on(command: Command, layout: LayoutView, event: Event)
    ensures
        moves_on(StageView::Seeking, next_turn(command, layout, StageView::Seeking, event)),
{
}

#[verifier::rlimit(40)]
#[verifier::spinoff_prover]
proof fn lemma_loading_moves_on(command: Command, layout: LayoutView, event: Event)
    ensures
        moves_on(StageView::Loading, next_turn(command, layout, StageView::Loading, event)),
{
}

/// Every run ends: each turn leads to a later phase, or one step further in
/// the publication, whatever comes of its action.
#[verifier::rlimit(40)]
pub proof fn law_every_run_ends(
    command: Command,
    layout: LayoutView,
    stage: StageView,
    event: Event,
)
    requires
        !(stage is Finished),
    ensures
        moves_on(stage, next_turn(command, layout, stage, event)),
{
    match stage {
        StageView::Examining(wanted, checkup) => {
            lemma_examination_moves_on(layout, wanted, checkup, event);
        },
        StageView::Publishing { steps, index } => {
            lemma_publication_moves_on(command, steps, index, event);
        },
        StageView::Seeking => {
            lemma_search_moves_on(command, layout, event);
        },
        StageView::Loading => {
            lemma_loading_moves_on(command, layout, event);
        },
        _ => {},
    }
}

/// Whether a line goes to the error stream.
pub open spec fn complains(lines: Seq<LineView>) -> bool {
    exists|i: int| 0 <= i < lines.len() && (#[trigger] lines[i]).error
}

/// Whether every line goes to the error stream, and there is one.
pub open spec fn only_complains(lines: Seq<LineView>) -> bool {
    &&& lines.len() > 0
    &&& forall|i: int| 0 <= i < lines.len() ==> (#[trigger] lines[i]).error
}

/// Whether a turn prints where it should: a run that fails says why on the
/// error stream, and nothing else is printed there.
pub open spec fn well_spoken(turn: TurnView) -> bool {
    if turn.action == ActionView::Finish(RunStatus::Failure) {
        only_complains(turn.lines)
    } else {
        !complains(turn.lines)
    }
}

proof fn lemma_report_is_well_spoken(report: ReportView)
    requires
        report.status != RunStatus::Failure,
    ensures
        well_spoken(reporting(report)),
{
    let turn = reporting(report);
    assert forall|i: int| 0 <= i < turn.lines.len() implies !(#[trigger] turn.lines[i]).error by {
        assert(turn.lines[i] == said(report.lines[i]));
    }
}

proof fn lemma_diagnosis_is_well_spoken(
    layout: LayoutView,
    checkup: CheckupView,
    identity: Option<IdentityView>,
    marker_is_generated: bool,
)
    requires
        checks(layout, checkup),
    ensures
        well_spoken(diagnosed(layout, checkup, identity, marker_is_generated)),
{
    reveal(checks);
    let source = choose|source: ConfigSource|
        checkup.report == #[trigger] with_source(blank(), layout, source) && checkup.config
            == trusted_config(source);
    law_doctor_has_issues_exactly_if_it_says_so(
        layout,
        source,
        checkup.evidence,
        identity,
        marker_is_generated,
    );
    lemma_report_is_well_spoken(
        completed(
            checkup.report,
            layout,
            checkup.config,
            checkup.evidence,
            identity,
            marker_is_generated,
        ),
    );
}

#[verifier::rlimit(40)]
proof fn lemma_examination_is_well_spoken(
    layout: LayoutView,
    wanted: WantedView,
    checkup: CheckupView,
    event: Event,
)
    requires
        checks(layout, checkup),
    ensures
        well_spoken(after_examination(layout, wanted, checkup, event)),
{
    match (wanted, event) {
        (WantedView::Repository, Event::Ran(_)) => {
            lemma_diagnosis_is_well_spoken(layout, checkup, None, false);
        },
        (WantedView::Identity, Event::Ran(output)) => {
            if let Ok(identity) = reported_identity(output) {
                lemma_diagnosis_is_well_spoken(layout, checkup, Some(identity), false);
            }
        },
        (WantedView::Marker(identity), Event::Resolved { paths, target }) => {
            lemma_diagnosis_is_well_spoken(
                layout,
                checkup,
                Some(identity),
                genuine(identity, resolved_paths(paths@), target@),
            );
        },
        _ => {},
    }
}

/// Whether all that was left to do was to prune, and that was not done.
pub open spec fn falls_short(stage: StageView, event: Event) -> bool {
    stage matches StageView::Publishing { steps, index } && 0 <= index < steps.len()
        && steps[index] is Prune && !(event is Pruned)
}

/// A run that fails says why on the error stream and prints nothing else in
/// that turn, and so does one that could not prune, which ends with issues.
/// Every other line goes to the output.
#[verifier::rlimit(40)]
pub proof fn law_failures_speak_on_the_error_stream(
    command: Command,
    layout: LayoutView,
    stage: StageView,
    event: Event,
)
    requires
        belongs(command, layout, stage),
    ensures
        well_spoken(first_turn(command, layout)),
        ({
            let next = next_turn(command, layout, stage, event);
            if falls_short(stage, event) {
                only_complains(next.lines) && next.action == ActionView::Finish(RunStatus::Issues)
            } else {
                well_spoken(next)
            }
        }),
{
    let next = next_turn(command, layout, stage, event);
    match (stage, event) {
        (StageView::Examining(wanted, checkup), _) => {
            lemma_examination_is_well_spoken(layout, wanted, checkup, event);
        },
        (StageView::Loading, Event::Loaded(config)) => {
            if command != Command::Doctor && findings(config@).len() > 0 {
                assert forall|i: int| 0 <= i < next.lines.len() implies (
                #[trigger] next.lines[i]).error by {
                    assert(next.lines[i] == complained(findings(config@)[i]));
                }
            }
        },
        (StageView::Publishing { steps, index }, Event::Pruned(names)) => {
            if steps[index] is Prune {
                assert forall|i: int| 0 <= i < next.lines.len() implies !(
                #[trigger] next.lines[i]).error by {
                    assert(next.lines[i] == removal(texts(names@)[i]));
                }
            }
        },
        (StageView::Identifying(toplevel), Event::Ran(output)) => {
            if let Ok(identity) = reported_identity(output) {
                lemma_report_is_well_spoken(identity_report(toplevel, identity, false));
            }
        },
        (StageView::Tracing { toplevel, identity }, Event::Resolved { paths, target }) => {
            lemma_report_is_well_spoken(
                identity_report(
                    toplevel,
                    identity,
                    genuine(identity, resolved_paths(paths@), target@),
                ),
            );
        },
        _ => {},
    }
}

}
