//! Whole runs of `init`, in a world that answers what they ask for.

use vstd::prelude::*;
use vstd::utf8::{
    decode_utf8, decode_utf8_encode_utf8, encode_utf8, encode_utf8_valid_utf8,
    is_ascii_chars_encode_utf8, valid_utf8,
};

use crate::app::{after_comparison, comparing, first_turn, next_turn, publishing, spelled, step_lines};
use crate::cli::Command;
use crate::conduct::{law_every_run_ends, law_unsupported_git_is_refused};
use crate::config::{accepted, findings, uses_remotes, ConfigView, RawConfigView};
use crate::file_io::write_outcome;
use crate::file_path::{joined, law_joining_adds_one_name, lemma_plain_name, rooted, SEPARATOR};
use crate::git::{
    adding_arguments, filled, leading_to, listed_includes, listing_arguments, one_target,
    reported_support, resolved_paths, version_arguments, GitOutput, RemoteRuleSupport,
    ResolvedPathView,
};
use crate::paths::{
    absolute_only, config_file, law_everything_hangs_off_the_config_dir,
    law_the_include_leads_to_the_root, lemma_encode_joined, objects_dir, root_gitconfig, LayoutView,
};
use crate::publication::{
    bytes_at, in_place, law_publication_puts_the_tree_in_place, lemma_paths_of_a_publication,
    lemma_pruning_spares_the_configuration, lemma_shape_of_a_publication, lemma_steps_are_idle,
    perform, performed, publication, same_file, StepView,
};
use crate::render::tree_of;
use crate::run_status::RunStatus;
use crate::sorted_map::keys;
use crate::text::lossy_text;
use crate::turn::{ActionView, Event, StageView, TurnView};

verus! {

/// What a run can change: the files, given as their bytes by path, and the
/// values of include.path in the global gitconfig, as they are written there.
pub struct World {
    pub files: Map<Seq<u8>, Seq<u8>>,
    pub includes: Seq<Seq<char>>,
}

/// What a run cannot change, and what decides how its questions are answered.
pub struct Surroundings {
    /// The home directory, which git puts in place of a leading `~`.
    pub home: Option<Seq<u8>>,
    /// What bytes say as a configuration file, if they are text that can be
    /// parsed.
    pub parse: spec_fn(Seq<u8>) -> Option<RawConfigView>,
    /// What `git version` comes to.
    pub version: GitOutput,
    /// What a path resolves to among these files, if it does.
    pub resolve: spec_fn(Map<Seq<u8>, Seq<u8>>, Seq<u8>) -> Option<Seq<u8>>,
}

/// The path that git makes of a value of include.path.
pub open spec fn expanded(home: Option<Seq<u8>>, value: Seq<char>) -> Seq<u8> {
    match home {
        Some(directory) if value.len() >= 2 && value[0] == '~' && value[1] == '/' => joined(
            directory,
            encode_utf8(value.skip(2)),
        ),
        _ => encode_utf8(value),
    }
}

/// The includes as git lists them.
pub open spec fn listed(home: Option<Seq<u8>>, includes: Seq<Seq<char>>) -> Seq<Seq<char>> {
    filled(includes.map_values(|value: Seq<char>| expanded(home, value)))
}

/// A path with what it resolves to.
pub open spec fn resolved(
    surroundings: Surroundings,
    files: Map<Seq<u8>, Seq<u8>>,
    path: Seq<u8>,
) -> ResolvedPathView {
    ResolvedPathView { path, resolved: (surroundings.resolve)(files, path) }
}

/// Paths with what they resolve to.
pub open spec fn all_resolved(
    surroundings: Surroundings,
    files: Map<Seq<u8>, Seq<u8>>,
    paths: Seq<Seq<u8>>,
) -> Seq<ResolvedPathView> {
    paths.map_values(|path: Seq<u8>| resolved(surroundings, files, path))
}

/// How many includes lead to the root.
pub open spec fn includes_of_the_root(
    surroundings: Surroundings,
    layout: LayoutView,
    world: World,
) -> nat {
    leading_to(
        all_resolved(
            surroundings,
            world.files,
            spelled(listed(surroundings.home, world.includes)),
        ),
        resolved(surroundings, world.files, root_gitconfig(layout.config_dir)),
    )
}

/// Whether `event` is what comes of performing `step` on files.
pub open spec fn performing(
    files: Map<Seq<u8>, Seq<u8>>,
    step: StepView,
    event: Event,
) -> bool {
    match (step, event) {
        (StepView::Directory(_), Event::Done) => true,
        (StepView::Write { path, contents, .. }, Event::Wrote(outcome)) => outcome
            == write_outcome(bytes_at(files, path), contents),
        (StepView::Prune { .. }, Event::Pruned(_)) => true,
        _ => false,
    }
}

/// Whether `event` is what comes of `action`, and `after` what it makes of the
/// world. The system refuses nothing.
pub open spec fn answers(
    surroundings: Surroundings,
    before: World,
    action: ActionView,
    event: Event,
    after: World,
) -> bool {
    match action {
        ActionView::Perform(step) => performing(before.files, step, event) && after == (World {
            files: perform(before.files, step),
            includes: before.includes,
        }),
        ActionView::FindFile(path) => after == before && event == Event::Found(
            before.files.contains_key(path),
        ),
        ActionView::LoadConfig(path) => after == before && match event {
            Event::Loaded(config) => before.files.contains_key(path) && (surroundings.parse)(
                before.files[path],
            ) == Some(config@),
            _ => false,
        },
        ActionView::RunGit { arguments, .. } => match event {
            Event::Ran(output) => if arguments == version_arguments() {
                after == before && output == surroundings.version
            } else if arguments == listing_arguments() {
                after == before && listed_includes(output) == Ok::<Seq<Seq<char>>, Seq<char>>(
                    listed(surroundings.home, before.includes),
                )
            } else {
                arguments == adding_arguments(arguments.last()) && output.success && after == (
                World { files: before.files, includes: before.includes.push(arguments.last()) })
            },
            _ => false,
        },
        ActionView::Resolve { paths, target } => after == before && match event {
            Event::Resolved { paths: list, target: end } => resolved_paths(list@) == all_resolved(
                surroundings,
                before.files,
                paths,
            ) && end@ == resolved(surroundings, before.files, target),
            _ => false,
        },
        _ => false,
    }
}

/// A run: its turns, what came of their actions, and the world at each turn.
pub struct Run {
    pub turns: Seq<TurnView>,
    pub events: Seq<Event>,
    pub worlds: Seq<World>,
}

/// Whether the turn behind position `index` is the one that follows.
pub open spec fn follows(
    surroundings: Surroundings,
    layout: LayoutView,
    run: Run,
    index: int,
) -> bool {
    &&& answers(
        surroundings,
        run.worlds[index],
        run.turns[index].action,
        run.events[index],
        run.worlds[index + 1],
    )
    &&& run.turns[index + 1] == next_turn(
        Command::Init,
        layout,
        run.turns[index].stage,
        run.events[index],
    )
}

/// Whether `run` is a run of `init` from its first turn to its end.
pub open spec fn is_init(surroundings: Surroundings, layout: LayoutView, run: Run) -> bool {
    &&& run.turns.len() == run.events.len() + 1
    &&& run.worlds.len() == run.turns.len()
    &&& run.turns[0] == first_turn(Command::Init, layout)
    &&& forall|i: int|
        0 <= i < run.events.len() ==> #[trigger] follows(surroundings, layout, run, i)
    &&& run.turns.last().action is Finish
}

/// The configuration that the configuration file stands for, if it is there,
/// can be parsed and has no finding.
pub open spec fn config_of(surroundings: Surroundings, layout: LayoutView, world: World) -> Option<
    ConfigView,
> {
    let path = config_file(layout.config_dir);
    if world.files.contains_key(path) {
        match (surroundings.parse)(world.files[path]) {
            Some(raw) if findings(raw).len() == 0 => Some(accepted(raw)),
            _ => None,
        }
    } else {
        None
    }
}

/// Whether git supports what a configuration uses.
pub open spec fn supports(surroundings: Surroundings, config: ConfigView) -> bool {
    uses_remotes(config) ==> reported_support(surroundings.version) == Ok::<
        RemoteRuleSupport,
        Seq<char>,
    >(RemoteRuleSupport::Supported)
}

/// Whether the configuration file stands for a configuration that git
/// supports, and the tree of that configuration is in place.
pub open spec fn published_world(
    surroundings: Surroundings,
    layout: LayoutView,
    world: World,
) -> bool {
    match config_of(surroundings, layout, world) {
        Some(config) => supports(surroundings, config) && in_place(
            world.files,
            layout.config_dir,
            tree_of(config),
        ),
        None => false,
    }
}

/// Whether there is nothing left for `init` to do.
pub open spec fn settled(surroundings: Surroundings, layout: LayoutView, world: World) -> bool {
    &&& published_world(surroundings, layout, world)
    &&& includes_of_the_root(surroundings, layout, world) > 0
}

////////////////////////////////////////////////////////////////////////////
// The managed include

/// Whether git makes the path of the root of the managed include, and that
/// path is text.
pub open spec fn include_expands(surroundings: Surroundings, layout: LayoutView) -> bool {
    &&& expanded(surroundings.home, layout.include_path) == root_gitconfig(layout.config_dir)
    &&& valid_utf8(root_gitconfig(layout.config_dir))
    &&& root_gitconfig(layout.config_dir).len() > 0
}

/// The include of a layout that XDG_CONFIG_HOME gives is the path of the root
/// itself.
proof fn lemma_rooted_include_expands(surroundings: Surroundings, base: Seq<u8>, layout: LayoutView)
    requires
        rooted(base),
        crate::paths::layout(Some(base), surroundings.home) == Ok::<LayoutView, Seq<char>>(layout),
    ensures
        include_expands(surroundings, layout),
{
    let root = root_gitconfig(layout.config_dir);
    let value = layout.include_path;
    law_the_include_leads_to_the_root(Some(base), surroundings.home);
    law_everything_hangs_off_the_config_dir(layout.config_dir, Seq::<char>::empty());
    reveal_strlit("cloakroom");
    lemma_plain_name("cloakroom"@);
    law_joining_adds_one_name(base, encode_utf8("cloakroom"@));
    assert(rooted(root));
    encode_utf8_valid_utf8(value);
    if value.len() >= 2 && value[0] == '~' {
        let tilde = seq!['~'];
        is_ascii_chars_encode_utf8(tilde);
        lemma_encode_joined(tilde, value.skip(1));
        assert(tilde + value.skip(1) == value);
        assert(encode_utf8(tilde)[0] == tilde[0] as u8);
    }
}

/// Joining a path to text that does not start with a separator adds text.
proof fn lemma_joined_text(home: Seq<u8>, tail: Seq<char>)
    requires
        valid_utf8(home),
        tail.len() > 0,
        tail[0] == '.',
    ensures
        valid_utf8(joined(home, encode_utf8(tail))),
        joined(home, encode_utf8(tail)).len() > 0,
{
    let text = decode_utf8(home);
    decode_utf8_encode_utf8(home);
    let dot = seq!['.'];
    is_ascii_chars_encode_utf8(dot);
    lemma_encode_joined(dot, tail.skip(1));
    assert(dot + tail.skip(1) == tail);
    assert(encode_utf8(dot)[0] == dot[0] as u8);
    assert(encode_utf8(tail)[0] == 46);
    let slash = seq!['/'];
    is_ascii_chars_encode_utf8(slash);
    assert(encode_utf8(slash)[0] == slash[0] as u8);
    assert(encode_utf8(slash) == seq![SEPARATOR]);
    lemma_encode_joined(text, tail);
    lemma_encode_joined(text, slash);
    lemma_encode_joined(text + slash, tail);
    encode_utf8_valid_utf8(text + tail);
    encode_utf8_valid_utf8(text + slash + tail);
    assert(home.push(SEPARATOR) == home + seq![SEPARATOR]);
}

/// Git makes the path of the root of the include that a layout calls for,
/// where the home directory, if the layout derives from it, is text.
pub proof fn lemma_include_expands(
    surroundings: Surroundings,
    xdg: Option<Seq<u8>>,
    layout: LayoutView,
)
    requires
        crate::paths::layout(absolute_only(xdg), surroundings.home) == Ok::<LayoutView, Seq<char>>(
            layout,
        ),
        absolute_only(xdg) is None ==> valid_utf8(surroundings.home->0),
    ensures
        include_expands(surroundings, layout),
{
    match absolute_only(xdg) {
        Some(base) => {
            lemma_rooted_include_expands(surroundings, base, layout);
        },
        None => {
            let value = layout.include_path;
            law_the_include_leads_to_the_root(None, surroundings.home);
            reveal_strlit("~/.config/cloakroom/generated/root.gitconfig");
            assert(value[0] == value.take(2)[0]);
            assert(value[1] == value.take(2)[1]);
            lemma_joined_text(surroundings.home->0, value.skip(2));
        },
    }
}

/// Once the managed include is there, it leads to the root.
proof fn lemma_added_include_leads(
    surroundings: Surroundings,
    layout: LayoutView,
    before: World,
)
    requires
        include_expands(surroundings, layout),
    ensures
        includes_of_the_root(
            surroundings,
            layout,
            World { files: before.files, includes: before.includes.push(layout.include_path) },
        ) > 0,
{
    let home = surroundings.home;
    let root = root_gitconfig(layout.config_dir);
    let target = resolved(surroundings, before.files, root);
    let values = before.includes.push(layout.include_path);
    let printed = values.map_values(|value: Seq<char>| expanded(home, value));
    let earlier = before.includes.map_values(|value: Seq<char>| expanded(home, value));
    assert(printed.drop_last() == earlier);
    assert(printed.last() == root);
    assert(listed(home, values) == listed(home, before.includes).push(lossy_text(root)));
    decode_utf8_encode_utf8(root);
    assert(encode_utf8(lossy_text(root)) == root);
    let paths = spelled(listed(home, values));
    let list = all_resolved(surroundings, before.files, paths);
    assert(list.last() == target);
    assert(one_target(target, target));
    reveal(Seq::filter);
    let leads = |entry: ResolvedPathView| one_target(entry, target);
    assert(list.filter(leads) == list.drop_last().filter(leads).push(list.last()));
}

////////////////////////////////////////////////////////////////////////////
// The first run

/// Whether the steps before position `index` have been performed on some
/// files.
#[verifier::opaque]
pub open spec fn reached(
    files: Map<Seq<u8>, Seq<u8>>,
    steps: Seq<StepView>,
    index: int,
) -> bool {
    exists|start: Map<Seq<u8>, Seq<u8>>|
        files == #[trigger] performed(start, steps.take(index))
}

/// Whether a run of `init` can have come to this turn in this world.
pub open spec fn underway(
    surroundings: Surroundings,
    layout: LayoutView,
    turn: TurnView,
    world: World,
) -> bool {
    match turn.stage {
        StageView::Preparing => turn.action is Perform,
        StageView::Seeking => turn.action == ActionView::FindFile(config_file(layout.config_dir)),
        StageView::Starting => turn.action is Perform,
        StageView::Loading => turn.action == ActionView::LoadConfig(
            config_file(layout.config_dir),
        ),
        StageView::Preflight(config) => {
            &&& turn.action == ActionView::RunGit { here: false, arguments: version_arguments() }
            &&& config_of(surroundings, layout, world) == Some(config)
            &&& uses_remotes(config)
        },
        StageView::Publishing { steps, index } => {
            &&& 0 <= index < steps.len()
            &&& turn.action == ActionView::Perform(steps[index])
            &&& reached(world.files, steps, index)
            &&& match config_of(surroundings, layout, world) {
                Some(config) => supports(surroundings, config) && steps == publication(
                    layout.config_dir,
                    tree_of(config),
                ),
                None => false,
            }
        },
        StageView::Listing => {
            &&& turn.action == ActionView::RunGit { here: false, arguments: listing_arguments() }
            &&& published_world(surroundings, layout, world)
        },
        StageView::Comparing => {
            &&& turn.action == ActionView::Resolve {
                paths: spelled(listed(surroundings.home, world.includes)),
                target: root_gitconfig(layout.config_dir),
            }
            &&& published_world(surroundings, layout, world)
        },
        StageView::Adding => {
            &&& turn.action == ActionView::RunGit {
                here: false,
                arguments: adding_arguments(layout.include_path),
            }
            &&& published_world(surroundings, layout, world)
        },
        StageView::Finished => turn.action == ActionView::Finish(RunStatus::Clean) ==> settled(
            surroundings,
            layout,
            world,
        ),
        _ => false,
    }
}

/// A step of a publication leaves the configuration file alone.
proof fn lemma_step_spares_config(
    files: Map<Seq<u8>, Seq<u8>>,
    config_dir: Seq<u8>,
    config: ConfigView,
    index: int,
)
    requires
        0 <= index < publication(config_dir, tree_of(config)).len(),
    ensures
        same_file(
            files,
            perform(files, publication(config_dir, tree_of(config))[index]),
            config_file(config_dir),
        ),
{
    let path = config_file(config_dir);
    let keep = keys(tree_of(config).objects);
    lemma_paths_of_a_publication(config_dir, config, index);
    lemma_pruning_spares_the_configuration(config_dir, keep);
    lemma_shape_of_a_publication(config_dir, config, index);
}

/// Performing the next step brings a publication one step further, and the
/// last one puts the tree in place.
proof fn lemma_reached(
    files: Map<Seq<u8>, Seq<u8>>,
    config_dir: Seq<u8>,
    config: ConfigView,
    index: int,
)
    requires
        0 <= index < publication(config_dir, tree_of(config)).len(),
        reached(files, publication(config_dir, tree_of(config)), index),
    ensures
        ({
            let steps = publication(config_dir, tree_of(config));
            let after = perform(files, steps[index]);
            &&& reached(after, steps, index + 1)
            &&& index + 1 == steps.len() ==> in_place(after, config_dir, tree_of(config))
        }),
{
    reveal(reached);
    let steps = publication(config_dir, tree_of(config));
    let start = choose|start: Map<Seq<u8>, Seq<u8>>|
        files == #[trigger] performed(start, steps.take(index));
    assert(steps.take(index + 1).drop_last() == steps.take(index));
    assert(steps.take(index + 1).last() == steps[index]);
    assert(perform(files, steps[index]) == performed(start, steps.take(index + 1)));
    if index + 1 == steps.len() {
        assert(steps.take(index + 1) == steps);
        law_publication_puts_the_tree_in_place(start, config_dir, config);
    }
}

#[verifier::spinoff_prover]
proof fn lemma_publishing_starts(
    surroundings: Surroundings,
    layout: LayoutView,
    config: ConfigView,
    world: World,
)
    requires
        config_of(surroundings, layout, world) == Some(config),
        supports(surroundings, config),
    ensures
        underway(surroundings, layout, publishing(layout, config), world),
{
    let steps = publication(layout.config_dir, tree_of(config));
    reveal(reached);
    assert(steps.len() >= 3);
    assert(steps.take(0) == Seq::<StepView>::empty());
    assert(world.files == performed(world.files, steps.take(0)));
}

proof fn lemma_search_is_underway(
    surroundings: Surroundings,
    layout: LayoutView,
    turn: TurnView,
    before: World,
    event: Event,
    after: World,
)
    requires
        turn.stage is Preparing || turn.stage is Seeking || turn.stage is Starting,
        underway(surroundings, layout, turn, before),
        answers(surroundings, before, turn.action, event, after),
    ensures
        underway(surroundings, layout, next_turn(Command::Init, layout, turn.stage, event), after),
{
}

proof fn lemma_loading_is_underway(
    surroundings: Surroundings,
    layout: LayoutView,
    turn: TurnView,
    before: World,
    event: Event,
    after: World,
)
    requires
        turn.stage is Loading,
        underway(surroundings, layout, turn, before),
        answers(surroundings, before, turn.action, event, after),
    ensures
        underway(surroundings, layout, next_turn(Command::Init, layout, turn.stage, event), after),
{
    if let Event::Loaded(config) = event {
        let raw = config@;
        if findings(raw).len() == 0 && !uses_remotes(accepted(raw)) {
            lemma_publishing_starts(surroundings, layout, accepted(raw), after);
        }
    }
}

proof fn lemma_preflight_is_underway(
    surroundings: Surroundings,
    layout: LayoutView,
    turn: TurnView,
    before: World,
    event: Event,
    after: World,
)
    requires
        turn.stage is Preflight,
        underway(surroundings, layout, turn, before),
        answers(surroundings, before, turn.action, event, after),
    ensures
        underway(surroundings, layout, next_turn(Command::Init, layout, turn.stage, event), after),
{
    if let StageView::Preflight(config) = turn.stage {
        if supports(surroundings, config) {
            lemma_publishing_starts(surroundings, layout, config, after);
        } else if let Event::Ran(output) = event {
            law_unsupported_git_is_refused(Command::Init, layout, config, output);
        }
    }
}

proof fn lemma_publication_is_underway(
    surroundings: Surroundings,
    layout: LayoutView,
    turn: TurnView,
    before: World,
    event: Event,
    after: World,
)
    requires
        turn.stage is Publishing,
        underway(surroundings, layout, turn, before),
        answers(surroundings, before, turn.action, event, after),
    ensures
        underway(surroundings, layout, next_turn(Command::Init, layout, turn.stage, event), after),
{
    if let StageView::Publishing { steps, index } = turn.stage {
        let config = config_of(surroundings, layout, before)->0;
        lemma_step_spares_config(before.files, layout.config_dir, config, index);
        assert(config_of(surroundings, layout, after) == Some(config));
        lemma_reached(before.files, layout.config_dir, config, index);
        assert(step_lines(steps[index], event) is Some);
    }
}

proof fn lemma_listing_is_underway(
    surroundings: Surroundings,
    layout: LayoutView,
    turn: TurnView,
    before: World,
    event: Event,
    after: World,
)
    requires
        turn.stage is Listing,
        underway(surroundings, layout, turn, before),
        answers(surroundings, before, turn.action, event, after),
    ensures
        underway(surroundings, layout, next_turn(Command::Init, layout, turn.stage, event), after),
{
    lemma_argument_lists_differ(layout.include_path);
}

proof fn lemma_compared_is_underway(
    surroundings: Surroundings,
    layout: LayoutView,
    world: World,
    count: nat,
)
    requires
        published_world(surroundings, layout, world),
        count == includes_of_the_root(surroundings, layout, world),
    ensures
        underway(surroundings, layout, after_comparison(layout, count), world),
{
}

#[verifier::spinoff_prover]
proof fn lemma_comparing_is_underway(
    surroundings: Surroundings,
    layout: LayoutView,
    turn: TurnView,
    before: World,
    event: Event,
    after: World,
)
    requires
        turn.stage is Comparing,
        underway(surroundings, layout, turn, before),
        answers(surroundings, before, turn.action, event, after),
    ensures
        underway(surroundings, layout, next_turn(Command::Init, layout, turn.stage, event), after),
{
    if let Event::Resolved { paths, target } = event {
        let count = leading_to(resolved_paths(paths@), target@);
        assert(count == includes_of_the_root(surroundings, layout, before)) by {
            assert(resolved_paths(paths@) == all_resolved(
                surroundings,
                before.files,
                spelled(listed(surroundings.home, before.includes)),
            ));
        }
        assert(next_turn(Command::Init, layout, turn.stage, event) == after_comparison(
            layout,
            count,
        ));
        lemma_compared_is_underway(surroundings, layout, before, count);
    }
}

proof fn lemma_adding_is_underway(
    surroundings: Surroundings,
    layout: LayoutView,
    turn: TurnView,
    before: World,
    event: Event,
    after: World,
)
    requires
        include_expands(surroundings, layout),
        turn.stage is Adding,
        underway(surroundings, layout, turn, before),
        answers(surroundings, before, turn.action, event, after),
    ensures
        underway(surroundings, layout, next_turn(Command::Init, layout, turn.stage, event), after),
{
    lemma_argument_lists_differ(layout.include_path);
    let arguments = adding_arguments(layout.include_path);
    assert(arguments.last() == layout.include_path);
    lemma_added_include_leads(surroundings, layout, before);
    assert(config_of(surroundings, layout, after) == config_of(surroundings, layout, before));
}

proof fn lemma_argument_lists_differ(path: Seq<char>)
    ensures
        listing_arguments() != version_arguments(),
        adding_arguments(path) != version_arguments(),
        adding_arguments(path) != listing_arguments(),
{
    assert(version_arguments().len() == 1);
    assert(listing_arguments().len() == 6);
    assert(adding_arguments(path).len() == 5);
}

proof fn lemma_stays_underway(
    surroundings: Surroundings,
    layout: LayoutView,
    turn: TurnView,
    before: World,
    event: Event,
    after: World,
)
    requires
        include_expands(surroundings, layout),
        underway(surroundings, layout, turn, before),
        answers(surroundings, before, turn.action, event, after),
        !(turn.stage is Finished),
    ensures
        underway(surroundings, layout, next_turn(Command::Init, layout, turn.stage, event), after),
{
    match turn.stage {
        StageView::Preparing | StageView::Seeking | StageView::Starting => {
            lemma_search_is_underway(surroundings, layout, turn, before, event, after);
        },
        StageView::Loading => {
            lemma_loading_is_underway(surroundings, layout, turn, before, event, after);
        },
        StageView::Preflight(_) => {
            lemma_preflight_is_underway(surroundings, layout, turn, before, event, after);
        },
        StageView::Publishing { .. } => {
            lemma_publication_is_underway(surroundings, layout, turn, before, event, after);
        },
        StageView::Listing => {
            lemma_listing_is_underway(surroundings, layout, turn, before, event, after);
        },
        StageView::Comparing => {
            lemma_comparing_is_underway(surroundings, layout, turn, before, event, after);
        },
        StageView::Adding => {
            lemma_adding_is_underway(surroundings, layout, turn, before, event, after);
        },
        _ => {},
    }
}

/// Whether a turn ends the run exactly if it asks to finish.
pub open spec fn ends_as_it_says(turn: TurnView) -> bool {
    turn.stage is Finished <==> turn.action is Finish
}

proof fn lemma_run_is_underway(
    surroundings: Surroundings,
    layout: LayoutView,
    run: Run,
    index: int,
)
    requires
        include_expands(surroundings, layout),
        is_init(surroundings, layout, run),
        0 <= index < run.turns.len(),
    ensures
        underway(surroundings, layout, run.turns[index], run.worlds[index]),
        ends_as_it_says(run.turns[index]),
    decreases index,
{
    if index > 0 {
        let before = index - 1;
        lemma_run_is_underway(surroundings, layout, run, before);
        assert(follows(surroundings, layout, run, before));
        let turn = run.turns[before];
        assert(!(turn.action is Finish));
        lemma_stays_underway(
            surroundings,
            layout,
            turn,
            run.worlds[before],
            run.events[before],
            run.worlds[index],
        );
        law_every_run_ends(Command::Init, layout, turn.stage, run.events[before]);
    }
}

/// A run of `init` that ends clean leaves nothing to do: the configuration is
/// there and valid, git supports it, its tree is in place, and an include
/// leads to the root.
pub proof fn law_a_clean_init_settles_everything(
    surroundings: Surroundings,
    xdg: Option<Seq<u8>>,
    layout: LayoutView,
    run: Run,
)
    requires
        crate::paths::layout(absolute_only(xdg), surroundings.home) == Ok::<LayoutView, Seq<char>>(
            layout,
        ),
        absolute_only(xdg) is None ==> valid_utf8(surroundings.home->0),
        is_init(surroundings, layout, run),
        run.turns.last().action == ActionView::Finish(RunStatus::Clean),
    ensures
        settled(surroundings, layout, run.worlds.last()),
{
    lemma_include_expands(surroundings, xdg, layout);
    lemma_run_is_underway(surroundings, layout, run, run.turns.len() - 1);
}

////////////////////////////////////////////////////////////////////////////
// The second run

/// Whether a run of `init` that has nothing to do can have come to this turn.
#[verifier::opaque]
pub open spec fn idle(
    surroundings: Surroundings,
    layout: LayoutView,
    turn: TurnView,
    world: World,
) -> bool {
    match turn.stage {
        StageView::Preparing => turn.action == ActionView::Perform(
            StepView::Directory(objects_dir(layout.config_dir)),
        ),
        StageView::Seeking
        | StageView::Loading
        | StageView::Preflight(_)
        | StageView::Listing
        | StageView::Comparing => underway(surroundings, layout, turn, world),
        StageView::Publishing { steps, index } => {
            &&& 0 <= index < steps.len()
            &&& turn.action == ActionView::Perform(steps[index])
            &&& Some(steps) == planned(surroundings, layout, world)
        },
        StageView::Finished => turn.action == ActionView::Finish(RunStatus::Clean),
        _ => false,
    }
}

/// The steps that publish what the configuration file stands for.
pub open spec fn planned(surroundings: Surroundings, layout: LayoutView, world: World) -> Option<
    Seq<StepView>,
> {
    match config_of(surroundings, layout, world) {
        Some(config) => Some(publication(layout.config_dir, tree_of(config))),
        None => None,
    }
}

#[verifier::spinoff_prover]
proof fn lemma_publishing_starts_idle(
    surroundings: Surroundings,
    layout: LayoutView,
    config: ConfigView,
    world: World,
)
    requires
        config_of(surroundings, layout, world) == Some(config),
    ensures
        idle(surroundings, layout, publishing(layout, config), world),
{
    reveal(idle);
    assert(publication(layout.config_dir, tree_of(config)).len() >= 3);
}

proof fn lemma_search_stays_idle(
    surroundings: Surroundings,
    layout: LayoutView,
    turn: TurnView,
    world: World,
    event: Event,
    after: World,
)
    requires
        settled(surroundings, layout, world),
        turn.stage is Preparing || turn.stage is Seeking,
        idle(surroundings, layout, turn, world),
        answers(surroundings, world, turn.action, event, after),
    ensures
        after == world,
        idle(surroundings, layout, next_turn(Command::Init, layout, turn.stage, event), world),
{
    reveal(idle);
}

proof fn lemma_loading_stays_idle(
    surroundings: Surroundings,
    layout: LayoutView,
    turn: TurnView,
    world: World,
    event: Event,
    after: World,
)
    requires
        settled(surroundings, layout, world),
        turn.stage is Loading,
        idle(surroundings, layout, turn, world),
        answers(surroundings, world, turn.action, event, after),
    ensures
        after == world,
        idle(surroundings, layout, next_turn(Command::Init, layout, turn.stage, event), world),
{
    reveal(idle);
    let config = config_of(surroundings, layout, world)->0;
    lemma_publishing_starts_idle(surroundings, layout, config, world);
    if let Event::Loaded(raw) = event {
        assert(findings(raw@).len() == 0);
        assert(accepted(raw@) == config);
    }
}

#[verifier::spinoff_prover]
proof fn lemma_preflight_stays_idle(
    surroundings: Surroundings,
    layout: LayoutView,
    turn: TurnView,
    world: World,
    event: Event,
    after: World,
)
    requires
        settled(surroundings, layout, world),
        turn.stage is Preflight,
        idle(surroundings, layout, turn, world),
        answers(surroundings, world, turn.action, event, after),
    ensures
        after == world,
        idle(surroundings, layout, next_turn(Command::Init, layout, turn.stage, event), world),
{
    reveal(idle);
    let config = config_of(surroundings, layout, world)->0;
    lemma_publishing_starts_idle(surroundings, layout, config, world);
}

proof fn lemma_publication_stays_idle(
    surroundings: Surroundings,
    layout: LayoutView,
    turn: TurnView,
    world: World,
    event: Event,
    after: World,
)
    requires
        settled(surroundings, layout, world),
        turn.stage is Publishing,
        idle(surroundings, layout, turn, world),
        answers(surroundings, world, turn.action, event, after),
    ensures
        after == world,
        idle(surroundings, layout, next_turn(Command::Init, layout, turn.stage, event), world),
{
    reveal(idle);
    if let StageView::Publishing { steps, index } = turn.stage {
        let config = config_of(surroundings, layout, world)->0;
        lemma_steps_are_idle(world.files, layout.config_dir, config, index);
        assert(step_lines(steps[index], event) is Some);
    }
}

#[verifier::spinoff_prover]
proof fn lemma_listing_stays_idle(
    surroundings: Surroundings,
    layout: LayoutView,
    turn: TurnView,
    world: World,
    event: Event,
    after: World,
)
    requires
        settled(surroundings, layout, world),
        turn.stage is Listing,
        idle(surroundings, layout, turn, world),
        answers(surroundings, world, turn.action, event, after),
    ensures
        after == world,
        idle(surroundings, layout, next_turn(Command::Init, layout, turn.stage, event), world),
{
    reveal(idle);
    lemma_argument_lists_differ(layout.include_path);
    if let Event::Ran(output) = event {
        assert(next_turn(Command::Init, layout, turn.stage, event) == comparing(
            layout,
            StageView::Comparing,
            listed(surroundings.home, world.includes),
        ));
    }
}

#[verifier::spinoff_prover]
proof fn lemma_comparing_stays_idle(
    surroundings: Surroundings,
    layout: LayoutView,
    turn: TurnView,
    world: World,
    event: Event,
    after: World,
)
    requires
        settled(surroundings, layout, world),
        turn.stage is Comparing,
        idle(surroundings, layout, turn, world),
        answers(surroundings, world, turn.action, event, after),
    ensures
        after == world,
        idle(surroundings, layout, next_turn(Command::Init, layout, turn.stage, event), world),
{
    reveal(idle);
    if let Event::Resolved { paths, target } = event {
        assert(leading_to(resolved_paths(paths@), target@) == includes_of_the_root(
            surroundings,
            layout,
            world,
        ));
    }
}

proof fn lemma_starts_idle(surroundings: Surroundings, layout: LayoutView, world: World)
    ensures
        idle(surroundings, layout, first_turn(Command::Init, layout), world),
{
    reveal(idle);
}

proof fn lemma_idle_runs_end_clean(
    surroundings: Surroundings,
    layout: LayoutView,
    turn: TurnView,
    world: World,
)
    requires
        idle(surroundings, layout, turn, world),
        turn.action is Finish,
    ensures
        turn.action == ActionView::Finish(RunStatus::Clean),
{
    reveal(idle);
}

proof fn lemma_idle_end(
    surroundings: Surroundings,
    layout: LayoutView,
    turn: TurnView,
    world: World,
    event: Event,
    after: World,
)
    requires
        turn.stage is Finished,
        idle(surroundings, layout, turn, world),
    ensures
        turn.action == ActionView::Finish(RunStatus::Clean),
        !answers(surroundings, world, turn.action, event, after),
{
    reveal(idle);
}

proof fn lemma_stays_idle(
    surroundings: Surroundings,
    layout: LayoutView,
    turn: TurnView,
    world: World,
    event: Event,
    after: World,
)
    requires
        settled(surroundings, layout, world),
        !(turn.stage is Finished),
        idle(surroundings, layout, turn, world),
        answers(surroundings, world, turn.action, event, after),
    ensures
        after == world,
        idle(surroundings, layout, next_turn(Command::Init, layout, turn.stage, event), world),
{
    match turn.stage {
        StageView::Publishing { .. } => {
            lemma_publication_stays_idle(surroundings, layout, turn, world, event, after);
        },
        StageView::Listing => {
            lemma_listing_stays_idle(surroundings, layout, turn, world, event, after);
        },
        StageView::Comparing => {
            lemma_comparing_stays_idle(surroundings, layout, turn, world, event, after);
        },
        StageView::Loading => {
            lemma_loading_stays_idle(surroundings, layout, turn, world, event, after);
        },
        StageView::Preflight(_) => {
            lemma_preflight_stays_idle(surroundings, layout, turn, world, event, after);
        },
        StageView::Preparing | StageView::Seeking => {
            lemma_search_stays_idle(surroundings, layout, turn, world, event, after);
        },
        _ => {
            reveal(idle);
        },
    }
}

proof fn lemma_run_is_idle(surroundings: Surroundings, layout: LayoutView, run: Run, index: int)
    requires
        is_init(surroundings, layout, run),
        settled(surroundings, layout, run.worlds[0]),
        0 <= index < run.turns.len(),
    ensures
        run.worlds[index] == run.worlds[0],
        idle(surroundings, layout, run.turns[index], run.worlds[0]),
    decreases index,
{
    let world = run.worlds[0];
    if index == 0 {
        lemma_starts_idle(surroundings, layout, world);
    } else {
        let before = index - 1;
        let turn = run.turns[before];
        let event = run.events[before];
        let after = run.worlds[index];
        lemma_run_is_idle(surroundings, layout, run, before);
        assert(follows(surroundings, layout, run, before));
        if turn.stage is Finished {
            lemma_idle_end(surroundings, layout, turn, world, event, after);
        }
        lemma_stays_idle(surroundings, layout, turn, world, event, after);
    }
}

/// `init` is idempotent: once a run of it has ended clean, a second one ends
/// clean as well and changes nothing. The configuration and the generated
/// files keep their contents, and no second include is added. Git has to be
/// able to print the path of the root as text, which a home directory that is
/// not UTF-8 would prevent.
pub proof fn law_init_is_idempotent(
    surroundings: Surroundings,
    xdg: Option<Seq<u8>>,
    layout: LayoutView,
    first: Run,
    second: Run,
)
    requires
        crate::paths::layout(absolute_only(xdg), surroundings.home) == Ok::<LayoutView, Seq<char>>(
            layout,
        ),
        absolute_only(xdg) is None ==> valid_utf8(surroundings.home->0),
        is_init(surroundings, layout, first),
        first.turns.last().action == ActionView::Finish(RunStatus::Clean),
        is_init(surroundings, layout, second),
        second.worlds[0] == first.worlds.last(),
    ensures
        second.turns.last().action == ActionView::Finish(RunStatus::Clean),
        forall|i: int|
            0 <= i < second.worlds.len() ==> #[trigger] second.worlds[i] == first.worlds.last(),
{
    law_a_clean_init_settles_everything(surroundings, xdg, layout, first);
    assert forall|i: int| 0 <= i < second.worlds.len() implies #[trigger] second.worlds[i]
        == first.worlds.last() by {
        lemma_run_is_idle(surroundings, layout, second, i);
    }
    let last = second.turns.len() - 1;
    lemma_run_is_idle(surroundings, layout, second, last);
    lemma_idle_runs_end_clean(surroundings, layout, second.turns[last], second.worlds[0]);
}

}
