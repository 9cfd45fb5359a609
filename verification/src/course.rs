//! The course of a run: what each turn prints and asks for, given what came of
//! the last action.

use vstd::prelude::*;
use vstd::utf8::encode_utf8;

use crate::acceptance::law_remote_rules_are_found_anywhere;
use crate::app::{first_turn, next_turn, object_paths, spelled, STARTER_CONFIG};
use crate::cli::Command;
use crate::config::{accepted, findings, ConfigView, RawConfig};
use crate::doctor::{
    asks_for_remotes, blank, completed, with_source, ConfigSource, Evidence, TreeOnDisk,
};
use crate::file_io::WriteOutcome;
use crate::git::{
    law_version_lines_are_recognized, leading_to, listed_includes, resolved_paths, support,
    version_in, version_parts, GitOutput, RemoteRuleSupport, ResolvedPath,
};
use crate::identity::reported_identity;
use crate::judgement::prints;
use crate::number::{decimal, number_32};
use crate::paths::{config_file, object_gitconfig, objects_dir, root_gitconfig, LayoutView};
use crate::publication::{object_steps, publication, StepView};
use crate::render::{tree_of, CompiledView};
use crate::run_status::RunStatus;
use crate::sorted_map::keys;
use crate::text::{law_what_occurs, lossy_text, texts, trimmed, trimmed_end};
use crate::turn::{ActionView, CheckupView, Event, LineView, StageView, TurnView, WantedView};

verus! {

/// Whether a turn says nothing and asks for `action`.
pub open spec fn quietly(turn: TurnView, stage: StageView, action: ActionView) -> bool {
    turn.stage == stage && turn.action == action && turn.lines.len() == 0
}

/// Whether a turn says one line on the output and asks for `action`.
pub open spec fn saying(
    turn: TurnView,
    text: Seq<char>,
    stage: StageView,
    action: ActionView,
) -> bool {
    &&& turn.stage == stage
    &&& turn.action == action
    &&& turn.lines == seq![LineView { text, error: false }]
}

/// Whether a turn ends the run as a failure, for the given reason.
pub open spec fn fails(turn: TurnView, reason: Seq<char>) -> bool {
    &&& turn.stage is Finished
    &&& turn.action == ActionView::Finish(RunStatus::Failure)
    &&& turn.lines == seq![LineView { text: "cloakroom: "@ + reason, error: true }]
}

/// What git printed to its error stream, without the white space around it.
pub open spec fn grumble(output: GitOutput) -> Seq<char> {
    trimmed(lossy_text(output.stderr@))
}

////////////////////////////////////////////////////////////////////////////
// How runs start

/// How each command starts: `init` makes the directory of the objects, `apply`
/// and `doctor` look for the configuration, `status` asks git where the
/// repository is.
pub proof fn law_how_runs_start(layout: LayoutView)
    ensures
        quietly(
            first_turn(Command::Init, layout),
            StageView::Preparing,
            ActionView::Perform(StepView::Directory(objects_dir(layout.config_dir))),
        ),
        quietly(
            first_turn(Command::Apply, layout),
            StageView::Seeking,
            ActionView::FindFile(config_file(layout.config_dir)),
        ),
        quietly(
            first_turn(Command::Doctor, layout),
            StageView::Seeking,
            ActionView::FindFile(config_file(layout.config_dir)),
        ),
        quietly(
            first_turn(Command::Status, layout),
            StageView::Locating,
            ActionView::RunGit { here: true, arguments: seq!["rev-parse"@, "--show-toplevel"@] },
        ),
{
}

/// The configuration is looked for and read where it belongs. `init` writes
/// the starter configuration only where there is none, `apply` refuses to go
/// on without one, and doctor reports that it is missing.
pub proof fn law_how_the_configuration_is_found(
    layout: LayoutView,
    outcome: WriteOutcome,
)
    ensures
        ({
            let path = config_file(layout.config_dir);
            let load = ActionView::LoadConfig(path);
            &&& quietly(
                next_turn(Command::Init, layout, StageView::Preparing, Event::Done),
                StageView::Seeking,
                ActionView::FindFile(path),
            )
            &&& saying(
                next_turn(Command::Init, layout, StageView::Seeking, Event::Found(true)),
                "kept existing "@ + lossy_text(path),
                StageView::Loading,
                load,
            )
            &&& quietly(
                next_turn(Command::Init, layout, StageView::Seeking, Event::Found(false)),
                StageView::Starting,
                ActionView::Perform(
                    StepView::Write {
                        path,
                        contents: STARTER_CONFIG@,
                        label: lossy_text(path),
                    },
                ),
            )
            &&& saying(
                next_turn(Command::Init, layout, StageView::Starting, Event::Wrote(outcome)),
                "wrote "@ + lossy_text(path),
                StageView::Loading,
                load,
            )
            &&& quietly(
                next_turn(Command::Apply, layout, StageView::Seeking, Event::Found(true)),
                StageView::Loading,
                load,
            )
            &&& fails(
                next_turn(Command::Apply, layout, StageView::Seeking, Event::Found(false)),
                "no config at "@ + lossy_text(path) + "; run cloakroom init"@,
            )
            &&& quietly(
                next_turn(Command::Doctor, layout, StageView::Seeking, Event::Found(true)),
                StageView::Loading,
                load,
            )
        }),
{
}

////////////////////////////////////////////////////////////////////////////
// Publishing

/// What becomes of the configuration that `init` or `apply` has read. With a
/// finding the run fails, every finding on a line of its own. Otherwise, if
/// any rule was written without a path, git is asked for its version and
/// nothing is written yet; only a configuration without such a rule is
/// published at once.
pub proof fn law_remote_rules_wait_for_the_version(
    command: Command,
    layout: LayoutView,
    config: RawConfig,
)
    requires
        command == Command::Init || command == Command::Apply,
    ensures
        ({
            let next = next_turn(command, layout, StageView::Loading, Event::Loaded(config));
            let steps = publication(layout.config_dir, tree_of(accepted(config@)));
            if findings(config@).len() > 0 {
                &&& next.stage is Finished
                &&& next.action == ActionView::Finish(RunStatus::Failure)
                &&& next.lines.len() == findings(config@).len()
                &&& forall|i: int|
                    0 <= i < next.lines.len() ==> #[trigger] next.lines[i] == (LineView {
                        text: "cloakroom: "@ + findings(config@)[i],
                        error: true,
                    })
            } else if exists|i: int|
                0 <= i < config@.rules.len() && (#[trigger] config@.rules[i]).path is None {
                quietly(
                    next,
                    StageView::Preflight(accepted(config@)),
                    ActionView::RunGit { here: false, arguments: seq!["version"@] },
                )
            } else {
                quietly(
                    next,
                    StageView::Publishing { steps, index: 0 },
                    ActionView::Perform(steps[0]),
                )
            }
        }),
{
    law_remote_rules_are_found_anywhere(config@);
}

/// Whether git told a version of 2.36 or newer: it ended well, and what it
/// printed is, apart from white space around it, `git version`, a major and a
/// minor number with a dot between them, and then nothing or something that a
/// dot or a space parts from them.
pub open spec fn recent(output: GitOutput) -> bool {
    output.success && exists|major: Seq<char>, minor: Seq<char>, rest: Seq<char>|
        #![trigger "git version "@ + major + "."@ + minor + rest]
        {
            &&& trimmed(lossy_text(output.stdout@)) == "git version "@ + major + "."@ + minor + rest
            &&& version_parts(major, minor, rest)
            &&& number_32(major) is Some
            &&& number_32(minor) is Some
            &&& number_32(major)->0 > 2 || (number_32(major)->0 == 2
                && number_32(minor)->0 >= 36)
        }
}

/// Remote rules are published exactly if git told a version of 2.36 or newer.
/// Otherwise nothing is written and the run fails.
pub proof fn law_remote_rules_need_a_recent_git(
    command: Command,
    layout: LayoutView,
    config: ConfigView,
    output: GitOutput,
)
    ensures
        ({
            let next = next_turn(
                command,
                layout,
                StageView::Preflight(config),
                Event::Ran(output),
            );
            let steps = publication(layout.config_dir, tree_of(config));
            if recent(output) {
                quietly(
                    next,
                    StageView::Publishing { steps, index: 0 },
                    ActionView::Perform(steps[0]),
                )
            } else {
                &&& fails(
                    next,
                    if !output.success {
                        "git version failed: "@ + grumble(output)
                    } else {
                        match version_in(lossy_text(output.stdout@)) {
                            Some((major, minor)) => "git "@ + decimal(major as nat) + "."@
                                + decimal(minor as nat)
                                + " does not support hasconfig conditions; remote rules need git 2.36 or newer"@,
                            None => "could not parse the git version; remote rules need git 2.36 or newer"@,
                        }
                    },
                )
            }
        }),
{
    law_version_lines_are_recognized(lossy_text(output.stdout@));
}

/// The order of a publication: the directory, each object, the root, and only
/// then the pruning of what the tree does not hold.
pub proof fn law_the_order_of_a_publication(config_dir: Seq<u8>, compiled: CompiledView, index: int)
    requires
        0 <= index < compiled.objects.len(),
    ensures
        ({
            let steps = publication(config_dir, compiled);
            let count = compiled.objects.len();
            &&& steps.len() == count + 3
            &&& steps[0] == StepView::Directory(objects_dir(config_dir))
            &&& steps[index + 1] == (StepView::Write {
                path: object_gitconfig(config_dir, compiled.objects[index].0),
                contents: compiled.objects[index].1,
                label: "generated/objects/"@ + compiled.objects[index].0 + ".gitconfig"@,
            })
        }),
{
    let steps = publication(config_dir, compiled);
    assert(steps[index + 1] == object_steps(
        config_dir,
        compiled.objects,
    )[index]);
}

/// How a publication ends: the root is the last file that is written, and the
/// pruning behind it keeps exactly the objects of the tree.
pub proof fn law_the_end_of_a_publication(config_dir: Seq<u8>, compiled: CompiledView)
    ensures
        ({
            let steps = publication(config_dir, compiled);
            let count = compiled.objects.len() as int;
            &&& steps.len() == count + 3
            &&& steps[0] == StepView::Directory(objects_dir(config_dir))
            &&& steps[count + 1] == (StepView::Write {
                path: root_gitconfig(config_dir),
                contents: compiled.root,
                label: "generated/root.gitconfig"@,
            })
            &&& steps[count + 2] == (StepView::Prune {
                directory: objects_dir(config_dir),
                keep: Seq::new(compiled.objects.len(), |i: int| compiled.objects[i].0),
            })
        }),
{
    let keep = Seq::new(compiled.objects.len(), |i: int| compiled.objects[i].0);
    assert(keys(compiled.objects) =~= keep);
}

/// Whether `event` says that `step` was performed, and `lines` is what is said
/// of it: whether a file was written or was as it should be, and which objects
/// were removed.
pub open spec fn told(step: StepView, event: Event, lines: Seq<LineView>) -> bool {
    match (step, event) {
        (StepView::Directory(_), Event::Done) => lines.len() == 0,
        (StepView::Write { label, .. }, Event::Wrote(WriteOutcome::Wrote)) => lines == seq![
            LineView { text: "wrote "@ + label, error: false },
        ],
        (StepView::Write { label, .. }, Event::Wrote(WriteOutcome::Unchanged)) => lines == seq![
            LineView { text: "unchanged "@ + label, error: false },
        ],
        (StepView::Prune { .. }, Event::Pruned(names)) => {
            &&& lines.len() == names@.len()
            &&& forall|i: int|
                0 <= i < lines.len() ==> #[trigger] lines[i] == (LineView {
                    text: "removed generated/objects/"@ + names@[i]@,
                    error: false,
                })
        },
        _ => false,
    }
}

/// Whether `event` is what comes of performing `step`.
pub open spec fn performed_as_asked(step: StepView, event: Event) -> bool {
    match step {
        StepView::Directory(_) => event is Done,
        StepView::Write { .. } => event is Wrote,
        StepView::Prune { .. } => event is Pruned,
    }
}

/// Steps are performed one after the other, each reported once it is done.
/// Behind the last one `apply` is finished, and `init` lists the includes of
/// the global gitconfig. A step that was not performed ends the run.
pub proof fn law_steps_are_performed_in_order(
    command: Command,
    layout: LayoutView,
    steps: Seq<StepView>,
    index: int,
    event: Event,
)
    requires
        0 <= index < steps.len(),
    ensures
        ({
            let next = next_turn(
                command,
                layout,
                StageView::Publishing { steps, index },
                event,
            );
            if performed_as_asked(steps[index], event) {
                &&& told(steps[index], event, next.lines)
                &&& index + 1 < steps.len() ==> next.stage == (StageView::Publishing {
                    steps,
                    index: index + 1,
                }) && next.action == ActionView::Perform(steps[index + 1])
                &&& index + 1 == steps.len() && command == Command::Init ==> next.stage is Listing
                    && next.action == (ActionView::RunGit {
                    here: false,
                    arguments: seq![
                        "config"@,
                        "--global"@,
                        "--path"@,
                        "--null"@,
                        "--get-all"@,
                        "include.path"@,
                    ],
                })
                &&& index + 1 == steps.len() && command != Command::Init ==> next.stage is Finished
                    && next.action == ActionView::Finish(RunStatus::Clean)
            } else {
                let reason = match event {
                    Event::Failed(message) => message@,
                    _ => "unexpected answer"@,
                };
                if steps[index] is Prune {
                    &&& next.stage is Finished
                    &&& next.action == ActionView::Finish(RunStatus::Issues)
                    &&& next.lines == seq![
                        LineView {
                            text: "cloakroom: "@ + (reason
                                + "; the new tree is in place, but stale objects are left: run cloakroom apply"@),
                            error: true,
                        },
                    ]
                } else {
                    fails(next, reason)
                }
            }
        }),
{
    let next = next_turn(command, layout, StageView::Publishing { steps, index }, event);
    if let Event::Pruned(names) = event {
        if steps[index] is Prune {
            assert(next.lines.len() == texts(names@).len());
            assert forall|i: int| 0 <= i < next.lines.len() implies #[trigger] next.lines[i] == (
            LineView { text: "removed generated/objects/"@ + names@[i]@, error: false }) by {
                assert(texts(names@)[i] == names@[i]@);
            }
        }
    }
}

////////////////////////////////////////////////////////////////////////////
// The managed include

/// How `init` ends: it resolves the includes that git lists, and the root. If
/// any of them leads to the root nothing is added; otherwise git adds the
/// managed include, once.
pub proof fn law_how_the_include_is_added(
    layout: LayoutView,
    output: GitOutput,
    paths: Vec<ResolvedPath>,
    target: ResolvedPath,
)
    ensures
        ({
            let next = next_turn(
                Command::Init,
                layout,
                StageView::Listing,
                Event::Ran(output),
            );
            match listed_includes(output) {
                Ok(includes) => quietly(
                    next,
                    StageView::Comparing,
                    ActionView::Resolve {
                        paths: Seq::new(includes.len(), |i: int| encode_utf8(includes[i])),
                        target: root_gitconfig(layout.config_dir),
                    },
                ),
                Err(message) => fails(next, message),
            }
        }),
        ({
            let next = next_turn(
                Command::Init,
                layout,
                StageView::Comparing,
                Event::Resolved { paths, target },
            );
            if leading_to(resolved_paths(paths@), target@) > 0 {
                saying(
                    next,
                    "global gitconfig already includes "@ + layout.include_path,
                    StageView::Finished,
                    ActionView::Finish(RunStatus::Clean),
                )
            } else {
                quietly(
                    next,
                    StageView::Adding,
                    ActionView::RunGit {
                        here: false,
                        arguments: seq![
                            "config"@,
                            "--global"@,
                            "--add"@,
                            "include.path"@,
                            layout.include_path,
                        ],
                    },
                )
            }
        }),
        ({
            let next = next_turn(Command::Init, layout, StageView::Adding, Event::Ran(output));
            if output.success {
                saying(
                    next,
                    "added include.path "@ + layout.include_path + " to the global gitconfig"@,
                    StageView::Finished,
                    ActionView::Finish(RunStatus::Clean),
                )
            } else {
                fails(next, "git config --add include.path failed: "@ + grumble(output))
            }
        }),
{
    if let Ok(includes) = listed_includes(output) {
        assert(spelled(includes) =~= Seq::new(
            includes.len(),
            |i: int| encode_utf8(includes[i]),
        ));
    }
}

////////////////////////////////////////////////////////////////////////////
// The repository

/// Whether git said that there is no repository here.
pub open spec fn no_repository(output: GitOutput) -> bool {
    !output.success && exists|before: Seq<char>, after: Seq<char>|
        grumble(output) == #[trigger] (before + "not a git repository"@ + after)
}

/// `status` goes on to the identity whether or not there is a repository; only
/// what git could not tell fails the run.
pub proof fn law_how_the_repository_is_found(layout: LayoutView, output: GitOutput)
    ensures
        ({
            let next = next_turn(
                Command::Status,
                layout,
                StageView::Locating,
                Event::Ran(output),
            );
            let ask = ActionView::RunGit {
                here: true,
                arguments: seq![
                    "config"@,
                    "--null"@,
                    "--list"@,
                    "--show-scope"@,
                    "--show-origin"@,
                ],
            };
            if output.success {
                quietly(
                    next,
                    StageView::Identifying(Some(trimmed_end(lossy_text(output.stdout@)))),
                    ask,
                )
            } else if no_repository(output) {
                quietly(next, StageView::Identifying(None), ask)
            } else {
                fails(next, "git rev-parse failed: "@ + grumble(output))
            }
        }),
{
    law_what_occurs(grumble(output), "not a git repository"@);
}

////////////////////////////////////////////////////////////////////////////
// Doctor

/// Whether a turn of doctor goes on to what it wants next, knowing `checkup`.
pub open spec fn goes_on(
    turn: TurnView,
    wanted: WantedView,
    checkup: CheckupView,
    action: ActionView,
) -> bool {
    quietly(turn, StageView::Examining(wanted, checkup), action)
}

/// What doctor does with the configuration: it reports on it, whether it is
/// missing, unreadable or read. If it is a valid one, the generated tree is
/// read to be compared with it; otherwise doctor goes on to the includes.
pub proof fn law_doctor_starts_from_the_configuration(
    layout: LayoutView,
    config: RawConfig,
    message: String,
)
    ensures
        ({
            let list = ActionView::RunGit {
                here: false,
                arguments: seq![
                    "config"@,
                    "--global"@,
                    "--path"@,
                    "--null"@,
                    "--get-all"@,
                    "include.path"@,
                ],
            };
            let nothing = Evidence { tree: None, includes: 0, support: RemoteRuleSupport::Unknown };
            let valid = accepted(config@);
            let objects = tree_of(valid).objects;
            &&& goes_on(
                next_turn(Command::Doctor, layout, StageView::Seeking, Event::Found(false)),
                WantedView::Includes,
                CheckupView {
                    report: with_source(blank(), layout, ConfigSource::Missing),
                    config: None,
                    evidence: nothing,
                },
                list,
            )
            &&& goes_on(
                next_turn(Command::Doctor, layout, StageView::Loading, Event::Failed(message)),
                WantedView::Includes,
                CheckupView {
                    report: with_source(blank(), layout, ConfigSource::Unreadable(message)),
                    config: None,
                    evidence: nothing,
                },
                list,
            )
            &&& findings(config@).len() > 0 ==> goes_on(
                next_turn(Command::Doctor, layout, StageView::Loading, Event::Loaded(config)),
                WantedView::Includes,
                CheckupView {
                    report: with_source(blank(), layout, ConfigSource::Read(config)),
                    config: None,
                    evidence: nothing,
                },
                list,
            )
            &&& findings(config@).len() == 0 ==> goes_on(
                next_turn(Command::Doctor, layout, StageView::Loading, Event::Loaded(config)),
                WantedView::Tree,
                CheckupView {
                    report: with_source(blank(), layout, ConfigSource::Read(config)),
                    config: Some(valid),
                    evidence: nothing,
                },
                ActionView::ReadTree {
                    root: root_gitconfig(layout.config_dir),
                    objects: Seq::new(
                        objects.len(),
                        |i: int| object_gitconfig(layout.config_dir, objects[i].0),
                    ),
                    directory: objects_dir(layout.config_dir),
                },
            )
        }),
{
    let objects = tree_of(accepted(config@)).objects;
    assert(object_paths(layout.config_dir, keys(objects)) =~= Seq::new(
        objects.len(),
        |i: int| object_gitconfig(layout.config_dir, objects[i].0),
    ));
}

/// How doctor collects what it reports on: the tree and the includes as they
/// were found.
pub proof fn law_doctor_collects_tree_and_includes(
    layout: LayoutView,
    checkup: CheckupView,
    tree: TreeOnDisk,
    output: GitOutput,
)
    ensures
        goes_on(
            next_turn(
                Command::Doctor,
                layout,
                StageView::Examining(WantedView::Tree, checkup),
                Event::Tree(tree),
            ),
            WantedView::Includes,
            CheckupView {
                report: checkup.report,
                config: checkup.config,
                evidence: Evidence {
                    tree: Some(tree),
                    includes: checkup.evidence.includes,
                    support: checkup.evidence.support,
                },
            },
            ActionView::RunGit {
                here: false,
                arguments: seq![
                    "config"@,
                    "--global"@,
                    "--path"@,
                    "--null"@,
                    "--get-all"@,
                    "include.path"@,
                ],
            },
        ),
        ({
            let next = next_turn(
                Command::Doctor,
                layout,
                StageView::Examining(WantedView::Includes, checkup),
                Event::Ran(output),
            );
            match listed_includes(output) {
                Ok(includes) => goes_on(
                    next,
                    WantedView::Targets,
                    checkup,
                    ActionView::Resolve {
                        paths: Seq::new(includes.len(), |i: int| encode_utf8(includes[i])),
                        target: root_gitconfig(layout.config_dir),
                    },
                ),
                Err(message) => fails(next, message),
            }
        }),
{
    if let Ok(includes) = listed_includes(output) {
        assert(spelled(includes) =~= Seq::new(
            includes.len(),
            |i: int| encode_utf8(includes[i]),
        ));
    }
}

/// Whether some rule of a configuration, wherever it stands, is a remote one.
pub open spec fn some_remote_rule(config: Option<ConfigView>) -> bool {
    config is Some && exists|i: int|
        0 <= i < (config->0).rules.len() && (#[trigger] (config->0).rules[i]).condition is Remotes
}

/// Doctor counts the includes that lead to the root, and asks for the version
/// of git exactly if some rule is a remote one.
pub proof fn law_doctor_asks_for_the_version_where_it_matters(
    layout: LayoutView,
    checkup: CheckupView,
    paths: Vec<ResolvedPath>,
    target: ResolvedPath,
)
    ensures
        ({
            let next = next_turn(
                Command::Doctor,
                layout,
                StageView::Examining(WantedView::Targets, checkup),
                Event::Resolved { paths, target },
            );
            let counted = CheckupView {
                report: checkup.report,
                config: checkup.config,
                evidence: Evidence {
                    tree: checkup.evidence.tree,
                    includes: leading_to(resolved_paths(paths@), target@) as usize,
                    support: checkup.evidence.support,
                },
            };
            if some_remote_rule(checkup.config) {
                goes_on(
                    next,
                    WantedView::Version,
                    counted,
                    ActionView::RunGit { here: false, arguments: seq!["version"@] },
                )
            } else {
                goes_on(
                    next,
                    WantedView::Repository,
                    counted,
                    ActionView::RunGit {
                        here: true,
                        arguments: seq!["rev-parse"@, "--show-toplevel"@],
                    },
                )
            }
        }),
{
    assert(asks_for_remotes(checkup.config) == some_remote_rule(checkup.config));
}

/// How doctor goes on from the version to the repository, and from there to
/// the identity. Outside a repository it reports without one.
pub proof fn law_doctor_goes_on_to_the_repository(
    layout: LayoutView,
    checkup: CheckupView,
    output: GitOutput,
)
    ensures
        ({
            let next = next_turn(
                Command::Doctor,
                layout,
                StageView::Examining(WantedView::Version, checkup),
                Event::Ran(output),
            );
            if output.success {
                goes_on(
                    next,
                    WantedView::Repository,
                    CheckupView {
                        report: checkup.report,
                        config: checkup.config,
                        evidence: Evidence {
                            tree: checkup.evidence.tree,
                            includes: checkup.evidence.includes,
                            support: support(version_in(lossy_text(output.stdout@))),
                        },
                    },
                    ActionView::RunGit {
                        here: true,
                        arguments: seq!["rev-parse"@, "--show-toplevel"@],
                    },
                )
            } else {
                fails(next, "git version failed: "@ + grumble(output))
            }
        }),
        ({
            let next = next_turn(
                Command::Doctor,
                layout,
                StageView::Examining(WantedView::Repository, checkup),
                Event::Ran(output),
            );
            if output.success {
                goes_on(
                    next,
                    WantedView::Identity,
                    checkup,
                    ActionView::RunGit {
                        here: true,
                        arguments: seq![
                            "config"@,
                            "--null"@,
                            "--list"@,
                            "--show-scope"@,
                            "--show-origin"@,
                        ],
                    },
                )
            } else if no_repository(output) {
                prints(
                    next,
                    completed(
                        checkup.report,
                        layout,
                        checkup.config,
                        checkup.evidence,
                        None,
                        false,
                    ),
                )
            } else {
                fails(next, "git rev-parse failed: "@ + grumble(output))
            }
        }),
{
    law_what_occurs(grumble(output), "not a git repository"@);
}

////////////////////////////////////////////////////////////////////////////
// Failures

/// An action that the system refuses fails the run with the reason it gives.
/// The exceptions are steps of a publication and the configuration that
/// doctor could not load.
pub proof fn law_refused_actions_fail_the_run(
    command: Command,
    layout: LayoutView,
    stage: StageView,
    message: String,
)
    requires
        !(stage is Publishing),
        !(stage is Loading && command == Command::Doctor),
    ensures
        fails(next_turn(command, layout, stage, Event::Failed(message)), message@),
{
}

/// A listing of git's configuration that failed, or that breaks off, fails the
/// run of `status` and of doctor with what is wrong with it.
pub proof fn law_unreadable_identities_fail_the_run(
    layout: LayoutView,
    toplevel: Option<Seq<char>>,
    checkup: CheckupView,
    output: GitOutput,
)
    ensures
        reported_identity(output) matches Err(message) ==> {
            &&& fails(
                next_turn(
                    Command::Status,
                    layout,
                    StageView::Identifying(toplevel),
                    Event::Ran(output),
                ),
                message,
            )
            &&& fails(
                next_turn(
                    Command::Doctor,
                    layout,
                    StageView::Examining(WantedView::Identity, checkup),
                    Event::Ran(output),
                ),
                message,
            )
        },
{
}

}
