//! The turns that a run takes: what it prints, what it asks for, what may
//! come of that, and where the run stands meanwhile.

use vstd::prelude::*;
use vstd::string::StringExecFns;

use crate::config::{Config, ConfigView, RawConfig};
use crate::doctor::{optional_config, Doctor, Evidence, TreeOnDisk};
use crate::file_io::WriteOutcome;
use crate::file_path::FilePath;
use crate::git::{GitOutput, ResolvedPath};
use crate::identity::{EffectiveIdentity, IdentityView};
use crate::publication::{steps_of, Step, StepView};
use crate::run_status::RunStatus;
use crate::status::ReportView;
use crate::text::{optional_text, texts};

verus! {

/// A line to print.
#[derive(Debug)]
pub struct Line {
    pub text: String,
    /// Whether it goes to the error stream.
    pub error: bool,
}

/// A line to print.
pub struct LineView {
    pub text: Seq<char>,
    pub error: bool,
}

impl View for Line {
    type V = LineView;

    open spec fn view(&self) -> LineView {
        LineView { text: self.text@, error: self.error }
    }
}

/// The lines that a list holds.
pub open spec fn lines_of(list: Seq<Line>) -> Seq<LineView> {
    list.map_values(|line: Line| line@)
}

/// What a run asks for.
#[derive(Debug)]
pub enum Action {
    /// Perform a step. Answered by `Done`, `Wrote` or `Pruned`.
    Perform(Step),
    /// Is there a file at this path? Answered by `Found`.
    FindFile(FilePath),
    /// Read and parse the configuration file at this path. Answered by
    /// `Loaded`.
    LoadConfig(FilePath),
    /// Run git with these arguments, in the current directory if `here`.
    /// Answered by `Ran`, whatever the exit status.
    RunGit { here: bool, arguments: Vec<String> },
    /// Read the generated tree: the root, the objects at these paths, and the
    /// names in the directory of the objects. Answered by `Tree`.
    ReadTree { root: FilePath, objects: Vec<FilePath>, directory: FilePath },
    /// Resolve these paths, and the target. Answered by `Resolved`.
    Resolve { paths: Vec<FilePath>, target: FilePath },
    /// The run is over.
    Finish(RunStatus),
}

/// What a run asks for.
pub enum ActionView {
    Perform(StepView),
    FindFile(Seq<u8>),
    LoadConfig(Seq<u8>),
    RunGit { here: bool, arguments: Seq<Seq<char>> },
    ReadTree { root: Seq<u8>, objects: Seq<Seq<u8>>, directory: Seq<u8> },
    Resolve { paths: Seq<Seq<u8>>, target: Seq<u8> },
    Finish(RunStatus),
}

/// The paths that a list holds.
pub open spec fn paths_of(list: Seq<FilePath>) -> Seq<Seq<u8>> {
    list.map_values(|path: FilePath| path@)
}

impl View for Action {
    type V = ActionView;

    open spec fn view(&self) -> ActionView {
        match self {
            Action::Perform(step) => ActionView::Perform(step@),
            Action::FindFile(path) => ActionView::FindFile(path@),
            Action::LoadConfig(path) => ActionView::LoadConfig(path@),
            Action::RunGit { here, arguments } => ActionView::RunGit {
                here: *here,
                arguments: texts(arguments@),
            },
            Action::ReadTree { root, objects, directory } => ActionView::ReadTree {
                root: root@,
                objects: paths_of(objects@),
                directory: directory@,
            },
            Action::Resolve { paths, target } => ActionView::Resolve {
                paths: paths_of(paths@),
                target: target@,
            },
            Action::Finish(status) => ActionView::Finish(*status),
        }
    }
}

/// What came of an action.
#[derive(Debug)]
pub enum Event {
    /// The directory is there.
    Done,
    /// Whether there is a file.
    Found(bool),
    /// The file holds the contents.
    Wrote(WriteOutcome),
    /// The names of the objects that were removed, sorted.
    Pruned(Vec<String>),
    /// What the configuration file says.
    Loaded(RawConfig),
    /// How git ended.
    Ran(GitOutput),
    /// What is in the generated tree.
    Tree(TreeOnDisk),
    /// What the paths and the target resolve to.
    Resolved { paths: Vec<ResolvedPath>, target: ResolvedPath },
    /// The action failed, for the given reason.
    Failed(String),
}

/// What doctor knows while it is collecting the rest.
#[derive(Debug)]
pub struct Checkup {
    /// The report on the configuration.
    pub doctor: Doctor,
    /// The configuration, where there is a valid one.
    pub config: Option<Config>,
    pub evidence: Evidence,
}

/// What doctor knows while it is collecting the rest.
pub struct CheckupView {
    pub report: ReportView,
    pub config: Option<ConfigView>,
    pub evidence: Evidence,
}

impl View for Checkup {
    type V = CheckupView;

    open spec fn view(&self) -> CheckupView {
        CheckupView {
            report: self.doctor@,
            config: optional_config(self.config),
            evidence: self.evidence,
        }
    }
}

/// What doctor is waiting for.
#[derive(Debug)]
pub enum Wanted {
    /// The generated tree.
    Tree,
    /// The includes of the global gitconfig.
    Includes,
    /// What those includes resolve to.
    Targets,
    /// The version of git.
    Version,
    /// The repository.
    Repository,
    /// The identity in the repository.
    Identity,
    /// What the origin of its marker resolves to.
    Marker(EffectiveIdentity),
}

/// What doctor is waiting for.
pub enum WantedView {
    Tree,
    Includes,
    Targets,
    Version,
    Repository,
    Identity,
    Marker(IdentityView),
}

impl View for Wanted {
    type V = WantedView;

    open spec fn view(&self) -> WantedView {
        match self {
            Wanted::Tree => WantedView::Tree,
            Wanted::Includes => WantedView::Includes,
            Wanted::Targets => WantedView::Targets,
            Wanted::Version => WantedView::Version,
            Wanted::Repository => WantedView::Repository,
            Wanted::Identity => WantedView::Identity,
            Wanted::Marker(identity) => WantedView::Marker(identity@),
        }
    }
}

/// Where a run stands: which answer it is waiting for.
#[derive(Debug)]
pub enum Stage {
    /// init: the directory of the objects.
    Preparing,
    /// init, apply, doctor: whether there is a configuration file.
    Seeking,
    /// init: the starter configuration is being written.
    Starting,
    /// init, apply, doctor: the configuration.
    Loading,
    /// init, apply: the version of git, which this configuration depends on.
    Preflight(Config),
    /// init, apply: the step at `index` of the publication.
    Publishing { steps: Vec<Step>, index: usize },
    /// init: the includes of the global gitconfig.
    Listing,
    /// init: what those includes resolve to.
    Comparing,
    /// init: the managed include is being added.
    Adding,
    /// status: the repository.
    Locating,
    /// status: the identity, with the repository known.
    Identifying(Option<String>),
    /// status: what the origin of the marker resolves to.
    Tracing { toplevel: Option<String>, identity: EffectiveIdentity },
    /// doctor: what it is waiting for, once the configuration is checked.
    Examining(Wanted, Checkup),
    /// The run is over.
    Finished,
}

/// Where a run stands.
pub enum StageView {
    Preparing,
    Seeking,
    Starting,
    Loading,
    Preflight(ConfigView),
    Publishing { steps: Seq<StepView>, index: int },
    Listing,
    Comparing,
    Adding,
    Locating,
    Identifying(Option<Seq<char>>),
    Tracing { toplevel: Option<Seq<char>>, identity: IdentityView },
    Examining(WantedView, CheckupView),
    Finished,
}

impl View for Stage {
    type V = StageView;

    open spec fn view(&self) -> StageView {
        match self {
            Stage::Preparing => StageView::Preparing,
            Stage::Seeking => StageView::Seeking,
            Stage::Starting => StageView::Starting,
            Stage::Loading => StageView::Loading,
            Stage::Preflight(config) => StageView::Preflight(config@),
            Stage::Publishing { steps, index } => StageView::Publishing {
                steps: steps_of(steps@),
                index: *index as int,
            },
            Stage::Listing => StageView::Listing,
            Stage::Comparing => StageView::Comparing,
            Stage::Adding => StageView::Adding,
            Stage::Locating => StageView::Locating,
            Stage::Identifying(toplevel) => StageView::Identifying(optional_text(*toplevel)),
            Stage::Tracing { toplevel, identity } => StageView::Tracing {
                toplevel: optional_text(*toplevel),
                identity: identity@,
            },
            Stage::Examining(wanted, checkup) => StageView::Examining(wanted@, checkup@),
            Stage::Finished => StageView::Finished,
        }
    }
}

/// One turn of a run: print the lines, perform the action, and hand what came
/// of it back together with the stage.
#[derive(Debug)]
pub struct Turn {
    pub stage: Stage,
    pub lines: Vec<Line>,
    pub action: Action,
}

/// One turn of a run.
pub struct TurnView {
    pub stage: StageView,
    pub lines: Seq<LineView>,
    pub action: ActionView,
}

impl View for Turn {
    type V = TurnView;

    open spec fn view(&self) -> TurnView {
        TurnView { stage: self.stage@, lines: lines_of(self.lines@), action: self.action@ }
    }
}

////////////////////////////////////////////////////////////////////////////
// Making turns

/// A line for the output.
pub open spec fn said(text: Seq<char>) -> LineView {
    LineView { text, error: false }
}

/// A line for the error stream.
pub open spec fn complained(message: Seq<char>) -> LineView {
    LineView { text: "cloakroom: "@ + message, error: true }
}

/// Nothing to say but what to ask for.
pub open spec fn asking(stage: StageView, action: ActionView) -> TurnView {
    TurnView { stage, lines: seq![], action }
}

/// The last turn.
pub open spec fn ending(lines: Seq<LineView>, status: RunStatus) -> TurnView {
    TurnView { stage: StageView::Finished, lines, action: ActionView::Finish(status) }
}

/// The last turn of a run that failed: the reason is printed once.
pub open spec fn failing(message: Seq<char>) -> TurnView {
    ending(seq![complained(message)], RunStatus::Failure)
}

/// The last turn of a run that reports.
pub open spec fn reporting(report: ReportView) -> TurnView {
    ending(report.lines.map_values(|line: Seq<char>| said(line)), report.status)
}

/// A turn that says nothing.
pub(crate) fn ask(stage: Stage, action: Action) -> (result: Turn)
    ensures
        result@ == asking(stage@, action@),
{
    let result = Turn { stage, lines: Vec::new(), action };
    assert(lines_of(result.lines@) == Seq::<LineView>::empty());
    result
}

/// A turn that says one thing.
pub(crate) fn say(text: String, stage: Stage, action: Action) -> (result: Turn)
    ensures
        result@ == (TurnView { stage: stage@, lines: seq![said(text@)], action: action@ }),
{
    let mut lines: Vec<Line> = Vec::new();
    lines.push(Line { text, error: false });
    assert(lines_of(lines@) == seq![said(text@)]);
    Turn { stage, lines, action }
}

/// The last turn.
pub(crate) fn end(lines: Vec<Line>, status: RunStatus) -> (result: Turn)
    ensures
        result@ == ending(lines_of(lines@), status),
{
    Turn { stage: Stage::Finished, lines, action: Action::Finish(status) }
}

/// The last turn of a run that failed.
pub(crate) fn fail(message: &str) -> (result: Turn)
    ensures
        result@ == failing(message@),
{
    let mut lines: Vec<Line> = Vec::new();
    let line = complain(message);
    lines.push(line);
    assert(lines_of(lines@) == seq![complained(message@)]);
    end(lines, RunStatus::Failure)
}

/// A line for the error stream.
pub(crate) fn complain(message: &str) -> (result: Line)
    ensures
        result@ == complained(message@),
{
    Line { text: "cloakroom: ".to_owned().concat(message), error: true }
}

/// The last turn of a run that reports.
pub(crate) fn report(lines: Vec<String>, status: RunStatus) -> (result: Turn)
    ensures
        result@ == reporting(ReportView { lines: texts(lines@), status }),
{
    let ghost wanted = texts(lines@).map_values(|line: Seq<char>| said(line));
    let mut list: Vec<Line> = Vec::new();
    let mut i: usize = 0;
    while i < lines.len()
        invariant
            i <= lines@.len(),
            wanted == texts(lines@).map_values(|line: Seq<char>| said(line)),
            lines_of(list@) == wanted.take(i as int),
        decreases lines@.len() - i,
    {
        let ghost earlier = list@;
        let line = Line { text: lines[i].clone(), error: false };
        list.push(line);
        i = i + 1;
        assert(lines_of(list@) == lines_of(earlier).push(line@));
        assert(wanted.take(i as int) == wanted.take(i - 1).push(line@));
    }
    assert(wanted.take(i as int) == wanted);
    end(list, status)
}

}
