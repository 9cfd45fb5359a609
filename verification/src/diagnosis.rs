//! What holds of every report that doctor makes.

use vstd::prelude::*;
use vstd::utf8::encode_utf8;

use crate::config::{accepted, findings, ConfigView, RuleView};
use crate::doctor::{
    all_to_edit, asks_for_remotes, blank, completed, conflict_message, conflicting, file_issues,
    object_label, object_on_disk, objects_issues, orphan, orphan_issues, selections_of, so_far,
    to_agree, to_edit, to_remove, to_upgrade, tree_issues, trusted_config, unset_or_agrees,
    with_conflicts, with_identity, with_include_count, with_issue, with_issues, with_marker,
    with_note, with_ok, with_selections, with_source, with_support, with_tree, with_unset,
    with_unused, with_valid_config, with_value, ConfigSource, Evidence, TreeOnDisk,
};
use crate::file_io::optional_bytes;
use crate::git::RemoteRuleSupport;
use crate::identity::{EntryView, IdentityView};
use crate::number::decimal;
use crate::order::ascending;
use crate::paths::{config_file, LayoutView};
use crate::profiles::ProfileView;
use crate::render::{conditions_of, tree_of, CompiledView};
use crate::run_status::RunStatus;
use crate::sorted_map::{keys, lemma_lookup_found, lemma_put_ascending, lemma_put_lookup, lookup};
use crate::status::{source_text, ReportView};
use crate::text::{debug_text, joined, lossy_text, occurs, optional_text, stands_at};

verus! {

/// Whether a line reports an issue.
pub open spec fn is_issue(line: Seq<char>) -> bool {
    "issue: "@.is_prefix_of(line)
}

/// Whether a report has an issue line.
pub open spec fn has_issue(report: ReportView) -> bool {
    exists|i: int| 0 <= i < report.lines.len() && is_issue(#[trigger] report.lines[i])
}

/// Whether the status of a report is what its lines say: issues if there is
/// one, clean otherwise, and never a failure.
pub open spec fn honest(report: ReportView) -> bool {
    report.status == (if has_issue(report) {
        RunStatus::Issues
    } else {
        RunStatus::Clean
    })
}

proof fn lemma_one_more_line(report: ReportView, line: Seq<char>, status: RunStatus)
    ensures
        has_issue(ReportView { lines: report.lines.push(line), status }) <==> has_issue(report)
            || is_issue(line),
{
    let longer = ReportView { lines: report.lines.push(line), status };
    if has_issue(report) {
        let i = choose|i: int| 0 <= i < report.lines.len() && is_issue(#[trigger] report.lines[i]);
        assert(longer.lines[i] == report.lines[i]);
    }
    if is_issue(line) {
        assert(longer.lines[report.lines.len() as int] == line);
    }
    if has_issue(longer) {
        let i = choose|i: int| 0 <= i < longer.lines.len() && is_issue(#[trigger] longer.lines[i]);
        if i < report.lines.len() {
            assert(report.lines[i] == longer.lines[i]);
        }
    }
}

proof fn lemma_lines_stay_honest(report: ReportView, message: Seq<char>)
    requires
        honest(report),
    ensures
        honest(with_ok(report, message)),
        honest(with_note(report, message)),
        honest(with_issue(report, message)),
{
    reveal_strlit("ok: ");
    reveal_strlit("note: ");
    reveal_strlit("issue: ");
    assert(("ok: "@ + message)[0] == 'o');
    assert(("note: "@ + message)[0] == 'n');
    assert("issue: "@[0] == 'i');
    assert(is_issue("issue: "@ + message));
    lemma_one_more_line(report, "ok: "@ + message, report.status);
    lemma_one_more_line(report, "note: "@ + message, report.status);
    lemma_one_more_line(report, "issue: "@ + message, with_issue(report, message).status);
}

proof fn lemma_issues_stay_honest(report: ReportView, messages: Seq<Seq<char>>)
    requires
        honest(report),
    ensures
        honest(with_issues(report, messages)),
    decreases messages.len(),
{
    if messages.len() > 0 {
        lemma_issues_stay_honest(report, messages.drop_last());
        lemma_lines_stay_honest(with_issues(report, messages.drop_last()), messages.last());
    }
}

proof fn lemma_unused_stay_honest(
    report: ReportView,
    profiles: Seq<(Seq<char>, ProfileView)>,
    rules: Seq<RuleView>,
)
    requires
        honest(report),
    ensures
        honest(with_unused(report, profiles, rules)),
    decreases profiles.len(),
{
    if profiles.len() > 0 {
        lemma_unused_stay_honest(report, profiles.drop_last(), rules);
        lemma_lines_stay_honest(
            with_unused(report, profiles.drop_last(), rules),
            "profile "@ + profiles.last().0 + " has no rules; nothing selects it automatically"@,
        );
    }
}

proof fn lemma_conflicts_stay_honest(
    report: ReportView,
    selections: Seq<(Seq<char>, Seq<Seq<char>>)>,
)
    requires
        honest(report),
    ensures
        honest(with_conflicts(report, selections)),
    decreases selections.len(),
{
    if selections.len() > 0 {
        lemma_conflicts_stay_honest(report, selections.drop_last());
        lemma_lines_stay_honest(
            with_conflicts(report, selections.drop_last()),
            conflict_message(selections.last().0, selections.last().1),
        );
    }
}

proof fn lemma_source_is_honest(layout: LayoutView, source: ConfigSource)
    ensures
        honest(with_source(blank(), layout, source)),
{
    let start = blank();
    match source {
        ConfigSource::Missing => {
            lemma_lines_stay_honest(
                start,
                "no config at "@ + lossy_text(config_file(layout.config_dir))
                    + "; run cloakroom init"@,
            );
        },
        ConfigSource::Unreadable(reason) => {
            lemma_lines_stay_honest(start, to_edit(reason@));
        },
        ConfigSource::Read(config) => {
            lemma_issues_stay_honest(start, all_to_edit(findings(config@)));
            lemma_lines_stay_honest(start, "config.toml parses and validates"@);
            let parsed = with_ok(start, "config.toml parses and validates"@);
            let valid = accepted(config@);
            lemma_unused_stay_honest(parsed, valid.profiles, valid.rules);
            lemma_conflicts_stay_honest(
                with_unused(parsed, valid.profiles, valid.rules),
                selections_of(valid.rules),
            );
        },
    }
}

proof fn lemma_identity_stays_honest(
    report: ReportView,
    identity: Option<IdentityView>,
    marker_is_generated: bool,
    config: Option<ConfigView>,
)
    requires
        honest(report),
    ensures
        honest(with_identity(report, identity, marker_is_generated, config)),
{
    assert forall|earlier: ReportView, message: Seq<char>| honest(earlier) implies {
        &&& honest(#[trigger] with_ok(earlier, message))
        &&& honest(with_note(earlier, message))
    } by {
        lemma_lines_stay_honest(earlier, message);
    }
    assert forall|earlier: ReportView, message: Seq<char>| honest(earlier) implies honest(
        #[trigger] with_issue(earlier, message),
    ) by {
        lemma_lines_stay_honest(earlier, message);
    }
    lemma_lines_stay_honest(report, "not inside a git repository; identity checks skipped"@);
}

/// The status of doctor's report is what its lines say: issues exactly if a
/// line reports one, clean otherwise. Notes are not worth a nonzero exit, and
/// doctor's own findings are never a failure.
pub proof fn law_doctor_has_issues_exactly_if_it_says_so(
    layout: LayoutView,
    source: ConfigSource,
    evidence: Evidence,
    identity: Option<IdentityView>,
    marker_is_generated: bool,
)
    ensures
        honest(
            completed(
                with_source(blank(), layout, source),
                layout,
                trusted_config(source),
                evidence,
                identity,
                marker_is_generated,
            ),
        ),
{
    let report = with_source(blank(), layout, source);
    let config = trusted_config(source);
    lemma_source_is_honest(layout, source);
    let generated = match (config, evidence.tree) {
        (Some(config), Some(tree)) => with_tree(report, tree_of(config), tree),
        _ => report,
    };
    if config is Some && evidence.tree is Some {
        lemma_lines_stay_honest(report, "generated files match the configuration"@);
        lemma_issues_stay_honest(report, tree_issues(tree_of(config->0), evidence.tree->0));
    }
    assert forall|earlier: ReportView, message: Seq<char>| honest(earlier) implies honest(
        #[trigger] with_ok(earlier, message),
    ) by {
        lemma_lines_stay_honest(earlier, message);
    }
    assert forall|earlier: ReportView, message: Seq<char>| honest(earlier) implies honest(
        #[trigger] with_issue(earlier, message),
    ) by {
        lemma_lines_stay_honest(earlier, message);
    }
    let included = with_include_count(generated, layout, evidence.includes as nat);
    assert(honest(included));
    let supported = if asks_for_remotes(config) {
        with_support(included, evidence.support)
    } else {
        included
    };
    assert(honest(supported));
    lemma_identity_stays_honest(supported, identity, marker_is_generated, config);
}

/// The profiles that `condition` selects among the conditions of one rule.
pub open spec fn selected_in(list: Seq<Seq<char>>, condition: Seq<char>, profile: Seq<char>) -> Seq<
    Seq<char>,
>
    decreases list.len(),
{
    if list.len() == 0 {
        seq![]
    } else if list.last() == condition {
        selected_in(list.drop_last(), condition, profile).push(profile)
    } else {
        selected_in(list.drop_last(), condition, profile)
    }
}

/// The profiles that `condition` selects, in the order of the rules.
pub open spec fn selecting(rules: Seq<RuleView>, condition: Seq<char>) -> Seq<Seq<char>>
    decreases rules.len(),
{
    if rules.len() == 0 {
        seq![]
    } else {
        selecting(rules.drop_last(), condition) + selected_in(
            conditions_of(rules.last()),
            condition,
            rules.last().profile,
        )
    }
}

proof fn lemma_with_selections(
    selections: Seq<(Seq<char>, Seq<Seq<char>>)>,
    list: Seq<Seq<char>>,
    profile: Seq<char>,
    condition: Seq<char>,
)
    requires
        ascending(keys(selections)),
    ensures
        ascending(keys(with_selections(selections, list, profile))),
        so_far(with_selections(selections, list, profile), condition) == so_far(
            selections,
            condition,
        ) + selected_in(list, condition, profile),
    decreases list.len(),
{
    if list.len() == 0 {
        assert(so_far(selections, condition) + selected_in(list, condition, profile) == so_far(
            selections,
            condition,
        ));
    } else {
        let rest = list.drop_last();
        let before = with_selections(selections, rest, profile);
        lemma_with_selections(selections, rest, profile, condition);
        let value = so_far(before, list.last()).push(profile);
        lemma_put_ascending(before, list.last(), value);
        lemma_put_lookup(before, list.last(), value, condition);
        if list.last() == condition {
            assert((so_far(selections, condition) + selected_in(rest, condition, profile)).push(
                profile,
            ) == so_far(selections, condition) + selected_in(list, condition, profile));
        }
    }
}

/// Doctor groups the rules by compiled condition: each condition goes with the
/// profiles of the rules that compile to it, in the order of the rules, and
/// the conditions stand in order.
pub proof fn law_rules_are_grouped_by_condition(rules: Seq<RuleView>, condition: Seq<char>)
    ensures
        ascending(keys(selections_of(rules))),
        so_far(selections_of(rules), condition) == selecting(rules, condition),
    decreases rules.len(),
{
    if rules.len() > 0 {
        law_rules_are_grouped_by_condition(rules.drop_last(), condition);
        lemma_with_selections(
            selections_of(rules.drop_last()),
            conditions_of(rules.last()),
            rules.last().profile,
            condition,
        );
    }
}

proof fn lemma_conflict_is_reported(
    report: ReportView,
    selections: Seq<(Seq<char>, Seq<Seq<char>>)>,
    index: int,
)
    requires
        0 <= index < selections.len(),
        conflicting(selections[index].1),
    ensures
        with_conflicts(report, selections).lines.contains(
            "issue: "@ + conflict_message(selections[index].0, selections[index].1),
        ),
    decreases selections.len(),
{
    let rest = selections.drop_last();
    let line = "issue: "@ + conflict_message(selections[index].0, selections[index].1);
    let earlier = with_conflicts(report, rest).lines;
    let all = with_conflicts(report, selections).lines;
    if index < rest.len() {
        assert(rest[index] == selections[index]);
        lemma_conflict_is_reported(report, rest, index);
        let at = choose|at: int| 0 <= at < earlier.len() && earlier[at] == line;
        assert(all[at] == line);
    } else {
        assert(all[all.len() - 1] == line);
    }
}

/// A condition that selects different profiles is reported, with the profiles
/// it selects: git applies the last include, so the earlier rules are dead.
pub proof fn law_conflicting_conditions_are_reported(
    report: ReportView,
    config: ConfigView,
    condition: Seq<char>,
)
    requires
        conflicting(selecting(config.rules, condition)),
    ensures
        with_valid_config(report, config).lines.contains(
            "issue: "@ + conflict_message(condition, selecting(config.rules, condition)),
        ),
{
    let selections = selections_of(config.rules);
    law_rules_are_grouped_by_condition(config.rules, condition);
    assert(selecting(config.rules, condition).len() > 0);
    assert(lookup(selections, condition) is Some);
    let at = lemma_lookup_found(selections, condition);
    lemma_conflict_is_reported(
        with_unused(
            with_ok(report, "config.toml parses and validates"@),
            config.profiles,
            config.rules,
        ),
        selections,
        at,
    );
}

/// Whether the tree on disk is byte for byte what a compile yields, and holds
/// no other object.
pub open spec fn fresh(compiled: CompiledView, tree: TreeOnDisk) -> bool {
    &&& optional_bytes(tree.root) == Some(encode_utf8(compiled.root))
    &&& forall|i: int|
        0 <= i < compiled.objects.len() ==> object_on_disk(tree, i) == Some(
            encode_utf8((#[trigger] compiled.objects[i]).1),
        )
    &&& forall|i: int|
        0 <= i < tree.names@.len() ==> !orphan(
            compiled.objects,
            optional_text(#[trigger] tree.names@[i]),
        )
}

proof fn lemma_objects_issues(
    objects: Seq<(Seq<char>, Seq<char>)>,
    tree: TreeOnDisk,
    count: nat,
)
    requires
        count <= objects.len(),
    ensures
        objects_issues(objects, tree, count).len() == 0 <==> forall|i: int|
            0 <= i < count ==> object_on_disk(tree, i) == Some(
                encode_utf8((#[trigger] objects[i]).1),
            ),
    decreases count,
{
    if count > 0 {
        lemma_objects_issues(objects, tree, (count - 1) as nat);
        assert(file_issues(
            object_label(objects[count - 1].0),
            objects[count - 1].1,
            object_on_disk(tree, count - 1),
        ).len() == 0 <==> object_on_disk(tree, count - 1) == Some(
            encode_utf8(objects[count - 1].1),
        ));
    }
}

proof fn lemma_orphan_issues(
    objects: Seq<(Seq<char>, Seq<char>)>,
    names: Seq<Option<String>>,
    count: nat,
)
    requires
        count <= names.len(),
    ensures
        orphan_issues(objects, names, count).len() == 0 <==> forall|i: int|
            0 <= i < count ==> !orphan(objects, optional_text(#[trigger] names[i])),
    decreases count,
{
    if count > 0 {
        lemma_orphan_issues(objects, names, (count - 1) as nat);
    }
}

/// The generated files pass exactly if each is byte for byte what a fresh
/// compile yields and no other object lies beside them.
pub proof fn law_generated_files_pass_exactly_if_fresh(compiled: CompiledView, tree: TreeOnDisk)
    ensures
        tree_issues(compiled, tree).len() == 0 <==> fresh(compiled, tree),
{
    lemma_objects_issues(compiled.objects, tree, compiled.objects.len());
    lemma_orphan_issues(compiled.objects, tree.names@, tree.names@.len());
}

////////////////////////////////////////////////////////////////////////////
// Every issue names its fix

/// Whether a line names a command to run: one of cloakroom's own, or one that
/// changes git's configuration.
pub open spec fn names_command(line: Seq<char>) -> bool {
    ||| occurs(line, "run cloakroom "@)
    ||| occurs(line, "run git config "@)
}

/// Whether every issue line of a report names a command.
pub open spec fn helpful(report: ReportView) -> bool {
    forall|i: int|
        0 <= i < report.lines.len() && is_issue(#[trigger] report.lines[i]) ==> names_command(
            report.lines[i],
        )
}

proof fn lemma_occurs_inside(
    front: Seq<char>,
    middle: Seq<char>,
    back: Seq<char>,
    needle: Seq<char>,
)
    requires
        occurs(middle, needle),
    ensures
        occurs(front + middle + back, needle),
{
    let at = choose|at: int| #[trigger] stands_at(middle, needle, at);
    let whole = front + middle + back;
    assert(whole.subrange(front.len() + at, front.len() + at + needle.len()) == middle.subrange(
        at,
        at + needle.len(),
    ));
    assert(stands_at(whole, needle, front.len() + at));
}

/// What names a command names it with text around it as well.
proof fn lemma_names_inside(front: Seq<char>, middle: Seq<char>, back: Seq<char>)
    requires
        names_command(middle),
    ensures
        names_command(front + middle + back),
        names_command(front + middle),
{
    let empty = Seq::<char>::empty();
    assert(front + middle + empty == front + middle);
    if occurs(middle, "run cloakroom "@) {
        lemma_occurs_inside(front, middle, back, "run cloakroom "@);
        lemma_occurs_inside(front, middle, empty, "run cloakroom "@);
    } else {
        lemma_occurs_inside(front, middle, back, "run git config "@);
        lemma_occurs_inside(front, middle, empty, "run git config "@);
    }
}

/// A text that holds `needle` at `at` has it.
proof fn lemma_stands(text: Seq<char>, needle: Seq<char>, at: int)
    requires
        0 <= at <= text.len() - needle.len(),
        forall|k: int| 0 <= k < needle.len() ==> text[at + k] == #[trigger] needle[k],
    ensures
        occurs(text, needle),
{
    let part = text.subrange(at, at + needle.len());
    assert forall|k: int| 0 <= k < needle.len() implies part[k] == needle[k] by {
        assert(text[at + k] == needle[k]);
    }
    assert(part == needle);
    assert(stands_at(text, needle, at));
}

proof fn lemma_names_apply()
    ensures
        names_command("; run cloakroom apply"@),
        names_command(" is stale; run cloakroom apply"@),
        names_command(" is missing; run cloakroom apply"@),
        names_command(" is not in the current manifest; run cloakroom apply"@),
        names_command(" is not in config.toml; run cloakroom apply"@),
{
    reveal_strlit("run cloakroom ");
    reveal_strlit("; run cloakroom apply");
    reveal_strlit(" is stale; run cloakroom apply");
    reveal_strlit(" is missing; run cloakroom apply");
    reveal_strlit(" is not in the current manifest; run cloakroom apply");
    reveal_strlit(" is not in config.toml; run cloakroom apply");
    let needle = "run cloakroom "@;
    lemma_stands("; run cloakroom apply"@, needle, 2);
    lemma_stands(" is stale; run cloakroom apply"@, needle, 11);
    lemma_stands(" is missing; run cloakroom apply"@, needle, 13);
    lemma_stands(" is not in the current manifest; run cloakroom apply"@, needle, 33);
    lemma_stands(" is not in config.toml; run cloakroom apply"@, needle, 24);
}

proof fn lemma_names_other_commands()
    ensures
        names_command("; run cloakroom init"@),
        names_command("; edit config.toml, then run cloakroom apply"@),
        names_command("; upgrade git, then run cloakroom apply"@),
        names_command(
            "; drop it from the command line or the environment, then run cloakroom doctor"@,
        ),
{
    reveal_strlit("run cloakroom ");
    reveal_strlit("; run cloakroom init");
    reveal_strlit("; edit config.toml, then run cloakroom apply");
    reveal_strlit("; upgrade git, then run cloakroom apply");
    reveal_strlit("; drop it from the command line or the environment, then run cloakroom doctor");
    let needle = "run cloakroom "@;
    lemma_stands("; run cloakroom init"@, needle, 2);
    lemma_stands("; edit config.toml, then run cloakroom apply"@, needle, 25);
    lemma_stands("; upgrade git, then run cloakroom apply"@, needle, 20);
    lemma_stands(
        "; drop it from the command line or the environment, then run cloakroom doctor"@,
        needle,
        57,
    );
}

proof fn lemma_names_git_config()
    ensures
        names_command("; run git config --file "@),
        names_command(
            " times; remove duplicate include.path entries: run git config --global --edit"@,
        ),
        names_command("no user.name resolves in this repository; run git config user.name <name>"@),
        names_command(
            "no user.email resolves in this repository; git will refuse to commit; run git config user.email <email>"@,
        ),
{
    reveal_strlit("run git config ");
    reveal_strlit("; run git config --file ");
    reveal_strlit(" times; remove duplicate include.path entries: run git config --global --edit");
    reveal_strlit("no user.name resolves in this repository; run git config user.name <name>");
    reveal_strlit(
        "no user.email resolves in this repository; git will refuse to commit; run git config user.email <email>",
    );
    let needle = "run git config "@;
    lemma_stands("; run git config --file "@, needle, 2);
    lemma_stands(
        " times; remove duplicate include.path entries: run git config --global --edit"@,
        needle,
        47,
    );
    lemma_stands(
        "no user.name resolves in this repository; run git config user.name <name>"@,
        needle,
        42,
    );
    lemma_stands(
        "no user.email resolves in this repository; git will refuse to commit; run git config user.email <email>"@,
        needle,
        70,
    );
}

proof fn lemma_lines_stay_helpful(report: ReportView, message: Seq<char>)
    requires
        helpful(report),
    ensures
        helpful(with_ok(report, message)),
        helpful(with_note(report, message)),
        names_command(message) ==> helpful(with_issue(report, message)),
{
    reveal_strlit("ok: ");
    reveal_strlit("note: ");
    reveal_strlit("issue: ");
    assert(("ok: "@ + message)[0] == 'o');
    assert(("note: "@ + message)[0] == 'n');
    assert("issue: "@[0] == 'i');
    if names_command(message) {
        lemma_names_inside("issue: "@, message, Seq::<char>::empty());
    }
    lemma_longer_stays_helpful(report, "ok: "@ + message);
    lemma_longer_stays_helpful(report, "note: "@ + message);
    lemma_longer_stays_helpful(report, "issue: "@ + message);
}

proof fn lemma_longer_stays_helpful(report: ReportView, line: Seq<char>)
    requires
        helpful(report),
    ensures
        (is_issue(line) ==> names_command(line)) ==> forall|i: int|
            0 <= i < report.lines.len() + 1 && is_issue(#[trigger] report.lines.push(line)[i])
                ==> names_command(report.lines.push(line)[i]),
{
    let longer = report.lines.push(line);
    assert forall|i: int| 0 <= i < report.lines.len() implies longer[i] == report.lines[i] by {}
}

/// Whether each of `messages` names a command.
pub open spec fn all_name_commands(messages: Seq<Seq<char>>) -> bool {
    forall|i: int| 0 <= i < messages.len() ==> names_command(#[trigger] messages[i])
}

proof fn lemma_issues_stay_helpful(report: ReportView, messages: Seq<Seq<char>>)
    requires
        helpful(report),
        all_name_commands(messages),
    ensures
        helpful(with_issues(report, messages)),
    decreases messages.len(),
{
    if messages.len() > 0 {
        let rest = messages.drop_last();
        assert forall|i: int| 0 <= i < rest.len() implies names_command(#[trigger] rest[i]) by {
            assert(rest[i] == messages[i]);
        }
        lemma_issues_stay_helpful(report, rest);
        assert(names_command(messages[messages.len() - 1]));
        lemma_lines_stay_helpful(with_issues(report, rest), messages.last());
    }
}

proof fn lemma_unused_stay_helpful(
    report: ReportView,
    profiles: Seq<(Seq<char>, ProfileView)>,
    rules: Seq<RuleView>,
)
    requires
        helpful(report),
    ensures
        helpful(with_unused(report, profiles, rules)),
    decreases profiles.len(),
{
    if profiles.len() > 0 {
        lemma_unused_stay_helpful(report, profiles.drop_last(), rules);
        lemma_lines_stay_helpful(
            with_unused(report, profiles.drop_last(), rules),
            "profile "@ + profiles.last().0 + " has no rules; nothing selects it automatically"@,
        );
    }
}

proof fn lemma_edits_name_commands(problem: Seq<char>)
    ensures
        names_command(to_edit(problem)),
        names_command(to_upgrade(problem)),
{
    lemma_names_other_commands();
    let empty = Seq::<char>::empty();
    lemma_names_inside(problem, "; edit config.toml, then run cloakroom apply"@, empty);
    lemma_names_inside(problem, "; upgrade git, then run cloakroom apply"@, empty);
}

proof fn lemma_conflicts_stay_helpful(
    report: ReportView,
    selections: Seq<(Seq<char>, Seq<Seq<char>>)>,
)
    requires
        helpful(report),
    ensures
        helpful(with_conflicts(report, selections)),
    decreases selections.len(),
{
    if selections.len() > 0 {
        let last = selections.last();
        lemma_conflicts_stay_helpful(report, selections.drop_last());
        lemma_edits_name_commands(
            "condition "@ + debug_text(last.0) + " selects profiles "@ + joined(last.1, ", "@)
                + "; git applies the last one and the others are dead"@,
        );
        lemma_lines_stay_helpful(
            with_conflicts(report, selections.drop_last()),
            conflict_message(last.0, last.1),
        );
    }
}

proof fn lemma_source_is_helpful(layout: LayoutView, source: ConfigSource)
    ensures
        helpful(with_source(blank(), layout, source)),
{
    let start = blank();
    let empty = Seq::<char>::empty();
    match source {
        ConfigSource::Missing => {
            let problem = "no config at "@ + lossy_text(config_file(layout.config_dir));
            lemma_names_other_commands();
            lemma_names_inside(problem, "; run cloakroom init"@, empty);
            lemma_lines_stay_helpful(start, problem + "; run cloakroom init"@);
        },
        ConfigSource::Unreadable(reason) => {
            lemma_edits_name_commands(reason@);
            lemma_lines_stay_helpful(start, to_edit(reason@));
        },
        ConfigSource::Read(config) => {
            let list = findings(config@);
            assert forall|i: int| 0 <= i < all_to_edit(list).len() implies names_command(
                #[trigger] all_to_edit(list)[i],
            ) by {
                lemma_edits_name_commands(list[i]);
            }
            lemma_issues_stay_helpful(start, all_to_edit(list));
            lemma_lines_stay_helpful(start, "config.toml parses and validates"@);
            let parsed = with_ok(start, "config.toml parses and validates"@);
            let valid = accepted(config@);
            lemma_unused_stay_helpful(parsed, valid.profiles, valid.rules);
            lemma_conflicts_stay_helpful(
                with_unused(parsed, valid.profiles, valid.rules),
                selections_of(valid.rules),
            );
        },
    }
}

proof fn lemma_all_name_commands(left: Seq<Seq<char>>, right: Seq<Seq<char>>)
    requires
        all_name_commands(left),
        all_name_commands(right),
    ensures
        all_name_commands(left + right),
{
    let all = left + right;
    assert forall|i: int| 0 <= i < all.len() implies names_command(#[trigger] all[i]) by {
        if i < left.len() {
            assert(all[i] == left[i]);
        } else {
            assert(all[i] == right[i - left.len()]);
        }
    }
}

proof fn lemma_file_issues_name_apply(
    name: Seq<char>,
    expected: Seq<char>,
    actual: Option<Seq<u8>>,
)
    ensures
        all_name_commands(file_issues(name, expected, actual)),
{
    let empty = Seq::<char>::empty();
    lemma_names_apply();
    lemma_names_inside(name, " is stale; run cloakroom apply"@, empty);
    lemma_names_inside(name, " is missing; run cloakroom apply"@, empty);
}

proof fn lemma_objects_issues_name_apply(
    objects: Seq<(Seq<char>, Seq<char>)>,
    tree: TreeOnDisk,
    count: nat,
)
    ensures
        all_name_commands(objects_issues(objects, tree, count)),
    decreases count,
{
    if count > 0 {
        lemma_objects_issues_name_apply(objects, tree, (count - 1) as nat);
        let label = object_label(objects[count - 1].0);
        let actual = object_on_disk(tree, count - 1);
        lemma_file_issues_name_apply(label, objects[count - 1].1, actual);
        lemma_all_name_commands(
            objects_issues(objects, tree, (count - 1) as nat),
            file_issues(label, objects[count - 1].1, actual),
        );
    }
}

proof fn lemma_orphan_issues_name_apply(
    objects: Seq<(Seq<char>, Seq<char>)>,
    names: Seq<Option<String>>,
    count: nat,
)
    ensures
        all_name_commands(orphan_issues(objects, names, count)),
    decreases count,
{
    if count > 0 {
        let front = "generated/objects/"@ + optional_text(names[count - 1])->0;
        let orphaned = " is not in the current manifest; run cloakroom apply"@;
        lemma_names_apply();
        lemma_names_inside(front, orphaned, Seq::<char>::empty());
        lemma_orphan_issues_name_apply(objects, names, (count - 1) as nat);
        let earlier = orphan_issues(objects, names, (count - 1) as nat);
        lemma_all_name_commands(earlier, seq![front + orphaned]);
        assert(earlier + seq![front + orphaned] == earlier.push(front + orphaned));
    }
}

proof fn lemma_tree_issues_name_apply(compiled: CompiledView, tree: TreeOnDisk)
    ensures
        all_name_commands(tree_issues(compiled, tree)),
{
    let objects = compiled.objects;
    let root = file_issues("generated/root.gitconfig"@, compiled.root, optional_bytes(tree.root));
    lemma_file_issues_name_apply(
        "generated/root.gitconfig"@,
        compiled.root,
        optional_bytes(tree.root),
    );
    lemma_objects_issues_name_apply(objects, tree, objects.len());
    lemma_orphan_issues_name_apply(objects, tree.names@, tree.names@.len());
    let files = objects_issues(objects, tree, objects.len());
    lemma_all_name_commands(root, files);
    lemma_all_name_commands(
        root + files,
        orphan_issues(objects, tree.names@, tree.names@.len()),
    );
}

proof fn lemma_includes_stay_helpful(report: ReportView, layout: LayoutView, count: nat)
    requires
        helpful(report),
    ensures
        helpful(with_include_count(report, layout, count)),
{
    let empty = Seq::<char>::empty();
    lemma_names_other_commands();
    lemma_names_git_config();
    let missing = "global gitconfig does not include "@ + layout.include_path;
    lemma_names_inside(missing, "; run cloakroom init"@, empty);
    lemma_lines_stay_helpful(report, missing + "; run cloakroom init"@);
    lemma_lines_stay_helpful(report, "global gitconfig includes the generated root"@);
    let often = "global gitconfig includes the generated root "@ + decimal(count);
    let fix = " times; remove duplicate include.path entries: run git config --global --edit"@;
    lemma_names_inside(often, fix, empty);
    lemma_lines_stay_helpful(report, often + fix);
}

proof fn lemma_support_stays_helpful(report: ReportView, support: RemoteRuleSupport)
    requires
        helpful(report),
    ensures
        helpful(with_support(report, support)),
{
    match support {
        RemoteRuleSupport::TooOld(major, minor) => {
            let problem = "git "@ + decimal(major as nat) + "."@ + decimal(minor as nat)
                + " does not support hasconfig conditions; remote rules need git 2.36 or newer"@;
            lemma_edits_name_commands(problem);
            lemma_lines_stay_helpful(report, to_upgrade(problem));
        },
        RemoteRuleSupport::Supported => {
            lemma_lines_stay_helpful(report, "git is new enough for hasconfig remote rules"@);
        },
        RemoteRuleSupport::Unknown => {
            let problem = "could not parse the git version; remote rules need Git 2.36 or newer"@;
            lemma_edits_name_commands(problem);
            lemma_lines_stay_helpful(report, to_upgrade(problem));
        },
    }
}

proof fn lemma_removal_names_command(entry: EntryView, key: Seq<char>, marker: EntryView)
    ensures
        names_command(to_remove(entry, key)),
        names_command(to_agree(entry, key, marker)),
{
    lemma_names_apply();
    lemma_names_other_commands();
    lemma_names_git_config();
    if let Some(path) = entry.origin {
        let empty = Seq::<char>::empty();
        let front = "; run git config --file "@;
        lemma_names_inside(empty, front, path + " --unset-all "@ + key);
        assert(empty + front + (path + " --unset-all "@ + key) == front + path + " --unset-all "@
            + key);
    }
}

proof fn lemma_value_stays_helpful(
    report: ReportView,
    key: Seq<char>,
    value: Option<EntryView>,
    expected: Seq<char>,
    marker: EntryView,
)
    requires
        helpful(report),
    ensures
        helpful(with_value(report, key, value, expected, marker)),
{
    if !unset_or_agrees(value, expected, marker) {
        let entry = value->0;
        let problem = key + " is "@ + debug_text(entry.value) + " from "@ + source_text(entry)
            + " (scope "@ + entry.scope + "), but cloakroom profile "@ + marker.value + " sets "@
            + debug_text(expected);
        lemma_removal_names_command(entry, key, marker);
        lemma_names_inside(problem, to_agree(entry, key, marker), Seq::<char>::empty());
        lemma_lines_stay_helpful(report, problem + to_agree(entry, key, marker));
    }
}

proof fn lemma_marker_stays_helpful(
    report: ReportView,
    identity: IdentityView,
    marker: EntryView,
    marker_is_generated: bool,
    config: Option<ConfigView>,
)
    requires
        helpful(report),
    ensures
        helpful(with_marker(report, identity, marker, marker_is_generated, config)),
{
    let empty = Seq::<char>::empty();
    let front = "cloakroom profile marker "@ + debug_text(marker.value);
    let problem = front + " comes from "@ + source_text(marker) + " (scope "@ + marker.scope
        + "), not a generated object"@;
    let fix = to_remove(marker, "cloakroom.profile"@);
    lemma_removal_names_command(marker, "cloakroom.profile"@, marker);
    lemma_names_inside(problem, fix, empty);
    lemma_lines_stay_helpful(report, problem + fix);
    lemma_names_apply();
    lemma_names_inside(front, " is not in config.toml; run cloakroom apply"@, empty);
    lemma_lines_stay_helpful(report, front + " is not in config.toml; run cloakroom apply"@);
    if let Some(valid) = config {
        if let Some(expected) = lookup(valid.profiles, marker.value) {
            let named = with_value(report, "user.name"@, identity.name, expected.name, marker);
            lemma_value_stays_helpful(
                report,
                "user.name"@,
                identity.name,
                expected.name,
                marker,
            );
            lemma_value_stays_helpful(
                named,
                "user.email"@,
                identity.email,
                expected.email,
                marker,
            );
            lemma_lines_stay_helpful(
                with_value(named, "user.email"@, identity.email, expected.email, marker),
                "the identity in this repository matches cloakroom's rules"@,
            );
        }
    }
}

proof fn lemma_identity_stays_helpful(
    report: ReportView,
    identity: Option<IdentityView>,
    marker_is_generated: bool,
    config: Option<ConfigView>,
)
    requires
        helpful(report),
    ensures
        helpful(with_identity(report, identity, marker_is_generated, config)),
{
    lemma_names_git_config();
    lemma_lines_stay_helpful(report, "not inside a git repository; identity checks skipped"@);
    if let Some(found) = identity {
        let name = "no user.name resolves in this repository; run git config user.name <name>"@;
        let email =
            "no user.email resolves in this repository; git will refuse to commit; run git config user.email <email>"@;
        lemma_lines_stay_helpful(report, name);
        lemma_lines_stay_helpful(report, email);
        lemma_lines_stay_helpful(with_issue(report, name), email);
        let complete = with_unset(report, found);
        assert(helpful(complete));
        lemma_lines_stay_helpful(
            complete,
            "no cloakroom rule matches this repository; the identity comes from elsewhere"@,
        );
        if let Some(marker) = found.profile {
            lemma_marker_stays_helpful(complete, found, marker, marker_is_generated, config);
        }
    }
}

/// Every issue line of doctor names the command that fixes it, whatever the
/// configuration, the files, git and the repository are like.
pub proof fn law_every_issue_names_a_command(
    layout: LayoutView,
    source: ConfigSource,
    evidence: Evidence,
    identity: Option<IdentityView>,
    marker_is_generated: bool,
)
    ensures
        helpful(
            completed(
                with_source(blank(), layout, source),
                layout,
                trusted_config(source),
                evidence,
                identity,
                marker_is_generated,
            ),
        ),
{
    let report = with_source(blank(), layout, source);
    let config = trusted_config(source);
    lemma_source_is_helpful(layout, source);
    let generated = match (config, evidence.tree) {
        (Some(config), Some(tree)) => with_tree(report, tree_of(config), tree),
        _ => report,
    };
    if config is Some && evidence.tree is Some {
        lemma_tree_issues_name_apply(tree_of(config->0), evidence.tree->0);
        lemma_lines_stay_helpful(report, "generated files match the configuration"@);
        lemma_issues_stay_helpful(report, tree_issues(tree_of(config->0), evidence.tree->0));
    }
    lemma_includes_stay_helpful(generated, layout, evidence.includes as nat);
    let included = with_include_count(generated, layout, evidence.includes as nat);
    lemma_support_stays_helpful(included, evidence.support);
    let supported = if asks_for_remotes(config) {
        with_support(included, evidence.support)
    } else {
        included
    };
    lemma_identity_stays_helpful(supported, identity, marker_is_generated, config);
}

}
