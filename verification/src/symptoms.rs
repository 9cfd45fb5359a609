//! What doctor says of the configuration, the generated files, the managed
//! include and git, over what it found.

use vstd::prelude::*;
use vstd::utf8::encode_utf8;

use crate::acceptance::listed_if;
use crate::config::{accepted, findings, ConfigView, RawConfig, RuleView};
use crate::course::some_remote_rule;
use crate::diagnosis::{law_rules_are_grouped_by_condition, selected_in, selecting};
use crate::doctor::{
    all_to_edit, asks_for_remotes, completed, conflict_message, conflicting, file_issues,
    object_on_disk, objects_issues, orphan, orphan_issues, selected_by_some, selections_of, so_far,
    tree_issues, trusted_config, with_conflicts, with_identity, with_include_count, with_issues,
    with_ok, with_source, with_support, with_tree, with_unused, with_valid_config, ConfigSource,
    Evidence, TreeOnDisk,
};
use crate::file_io::optional_bytes;
use crate::git::RemoteRuleSupport;
use crate::identity::IdentityView;
use crate::number::decimal;
use crate::order::ascending;
use crate::paths::{config_file, LayoutView};
use crate::profiles::ProfileView;
use crate::render::{conditions_of, tree_of, CompiledView};
use crate::sorted_map::{keys, lemma_lookup_found, lemma_lookup_none, lookup};
use crate::status::ReportView;
use crate::text::{debug_text, joined, law_prefixes_and_suffixes, lossy_text, optional_text};

verus! {

proof fn lemma_flatten_last<T>(parts: Seq<Seq<T>>)
    requires
        parts.len() > 0,
    ensures
        parts.flatten() == parts.drop_last().flatten() + parts.last(),
{
    parts.lemma_flatten_and_flatten_alt_are_equivalent();
    parts.drop_last().lemma_flatten_and_flatten_alt_are_equivalent();
}

proof fn lemma_flatten_none<T>(parts: Seq<Seq<T>>)
    requires
        parts.len() == 0,
    ensures
        parts.flatten() == Seq::<T>::empty(),
{
}

////////////////////////////////////////////////////////////////////////////
// The configuration

/// What doctor says of a configuration that it cannot work with: that it is
/// missing, why it could not be read, or each finding of validation, with what
/// to do about it.
pub proof fn law_doctor_on_an_unusable_configuration(
    report: ReportView,
    layout: LayoutView,
    source: ConfigSource,
)
    requires
        source matches ConfigSource::Read(config) ==> findings(config@).len() > 0,
    ensures
        trusted_config(source) is None,
        with_source(report, layout, source).lines == report.lines + match source {
            ConfigSource::Missing => seq![
                "issue: "@ + ("no config at "@ + lossy_text(config_file(layout.config_dir))
                    + "; run cloakroom init"@),
            ],
            ConfigSource::Unreadable(reason) => seq![
                "issue: "@ + (reason@ + "; edit config.toml, then run cloakroom apply"@),
            ],
            ConfigSource::Read(config) => Seq::new(
                findings(config@).len(),
                |i: int|
                    "issue: "@ + (findings(config@)[i]
                        + "; edit config.toml, then run cloakroom apply"@),
            ),
        },
{
    if let ConfigSource::Read(config) = source {
        let list = findings(config@);
        lemma_issues(report, all_to_edit(list));
        assert(with_source(report, layout, source).lines =~= report.lines + Seq::new(
            list.len(),
            |i: int| "issue: "@ + (list[i] + "; edit config.toml, then run cloakroom apply"@),
        ));
    }
}

proof fn lemma_issues(report: ReportView, messages: Seq<Seq<char>>)
    ensures
        with_issues(report, messages).lines == report.lines + Seq::new(
            messages.len(),
            |i: int| "issue: "@ + messages[i],
        ),
    decreases messages.len(),
{
    let lines = Seq::new(messages.len(), |i: int| "issue: "@ + messages[i]);
    if messages.len() > 0 {
        lemma_issues(report, messages.drop_last());
        let before = Seq::new(
            messages.drop_last().len(),
            |i: int| "issue: "@ + messages.drop_last()[i],
        );
        assert(lines =~= before.push("issue: "@ + messages.last()));
    }
    assert(with_issues(report, messages).lines =~= report.lines + lines);
}

/// What is said of a profile that no rule selects.
pub open spec fn said_of_selection(
    profiles: Seq<(Seq<char>, ProfileView)>,
    rules: Seq<RuleView>,
    at: int,
) -> Seq<Seq<char>> {
    listed_if(
        forall|i: int|
            0 <= i < rules.len() ==> (#[trigger] rules[i]).profile != profiles[at].0,
        "note: "@ + ("profile "@ + profiles[at].0
            + " has no rules; nothing selects it automatically"@),
    )
}

proof fn lemma_unused(
    report: ReportView,
    profiles: Seq<(Seq<char>, ProfileView)>,
    rules: Seq<RuleView>,
)
    ensures
        with_unused(report, profiles, rules).lines == report.lines + Seq::new(
            profiles.len(),
            |at: int| said_of_selection(profiles, rules, at),
        ).flatten(),
    decreases profiles.len(),
{
    let parts = Seq::new(profiles.len(), |at: int| said_of_selection(profiles, rules, at));
    if profiles.len() > 0 {
        let rest = profiles.drop_last();
        lemma_unused(report, rest, rules);
        let before = Seq::new(rest.len(), |at: int| said_of_selection(rest, rules, at));
        assert(parts.drop_last() =~= before);
        lemma_flatten_last(parts);
        let key = profiles.last().0;
        assert(parts.last() == said_of_selection(profiles, rules, profiles.len() - 1));
        if selected_by_some(rules, key) {
            let i = choose|i: int| 0 <= i < rules.len() && (#[trigger] rules[i]).profile == key;
            assert(rules[i].profile == key);
            assert(parts.last() =~= seq![]);
        } else {
            assert forall|i: int| 0 <= i < rules.len() implies (#[trigger] rules[i]).profile
                != key by {}
            assert(parts.last() =~= seq![
                "note: "@ + ("profile "@ + key
                    + " has no rules; nothing selects it automatically"@),
            ]);
        }
        assert(with_unused(report, profiles, rules).lines =~= report.lines + parts.flatten());
    } else {
        lemma_flatten_none(parts);
        assert(with_unused(report, profiles, rules).lines =~= report.lines + parts.flatten());
    }
}

/// What is said of a condition that selects these profiles.
pub open spec fn said_of_condition(condition: Seq<char>, profiles: Seq<Seq<char>>) -> Seq<
    Seq<char>,
> {
    listed_if(
        exists|i: int, j: int|
            0 <= i < profiles.len() && 0 <= j < profiles.len() && #[trigger] profiles[i]
                != #[trigger] profiles[j],
        "issue: "@ + ("condition "@ + debug_text(condition) + " selects profiles "@ + joined(
            profiles,
            ", "@,
        ) + "; git applies the last one and the others are dead"@
            + "; edit config.toml, then run cloakroom apply"@),
    )
}

proof fn lemma_conflicts(report: ReportView, selections: Seq<(Seq<char>, Seq<Seq<char>>)>)
    ensures
        with_conflicts(report, selections).lines == report.lines + Seq::new(
            selections.len(),
            |at: int| said_of_condition(selections[at].0, selections[at].1),
        ).flatten(),
    decreases selections.len(),
{
    let parts = Seq::new(
        selections.len(),
        |at: int| said_of_condition(selections[at].0, selections[at].1),
    );
    if selections.len() > 0 {
        let rest = selections.drop_last();
        lemma_conflicts(report, rest);
        let before = Seq::new(rest.len(), |at: int| said_of_condition(rest[at].0, rest[at].1));
        assert(parts.drop_last() =~= before);
        lemma_flatten_last(parts);
        let profiles = selections.last().1;
        assert(parts.last() == said_of_condition(selections.last().0, profiles));
        if conflicting(profiles) {
            let i = choose|i: int|
                0 <= i < profiles.len() && #[trigger] profiles[i] != profiles[0];
            assert(profiles[i] != profiles[0]);
            assert(parts.last() =~= seq![
                "issue: "@ + conflict_message(selections.last().0, profiles),
            ]);
        } else {
            assert forall|i: int, j: int|
                0 <= i < profiles.len() && 0 <= j < profiles.len() implies #[trigger] profiles[i]
                == #[trigger] profiles[j] by {
                assert(profiles[i] == profiles[0]);
                assert(profiles[j] == profiles[0]);
            }
            assert(parts.last() =~= seq![]);
        }
        assert(with_conflicts(report, selections).lines =~= report.lines + parts.flatten());
    } else {
        lemma_flatten_none(parts);
        assert(with_conflicts(report, selections).lines =~= report.lines + parts.flatten());
    }
}

/// What doctor says of a valid configuration: that it is one, then which
/// profiles no rule selects, then, in the order of the conditions, which of
/// them select different profiles.
pub proof fn law_doctor_on_a_valid_configuration(report: ReportView, config: ConfigView)
    ensures
        with_valid_config(report, config).lines == report.lines + seq![
            "ok: "@ + "config.toml parses and validates"@,
        ] + Seq::new(
            config.profiles.len(),
            |at: int| said_of_selection(config.profiles, config.rules, at),
        ).flatten() + Seq::new(
            selections_of(config.rules).len(),
            |at: int|
                said_of_condition(
                    selections_of(config.rules)[at].0,
                    selections_of(config.rules)[at].1,
                ),
        ).flatten(),
        forall|layout: LayoutView, raw: RawConfig|
            findings(raw@).len() == 0 ==> #[trigger] with_source(
                report,
                layout,
                ConfigSource::Read(raw),
            ) == with_valid_config(report, accepted(raw@)) && trusted_config(
                ConfigSource::Read(raw),
            ) == Some(accepted(raw@)),
{
    let started = with_ok(report, "config.toml parses and validates"@);
    let noted = with_unused(started, config.profiles, config.rules);
    assert(started.lines =~= report.lines + seq!["ok: "@ + "config.toml parses and validates"@]);
    lemma_unused(started, config.profiles, config.rules);
    lemma_conflicts(noted, selections_of(config.rules));
}

/// The conditions that doctor looks at are those of the rules, each once and
/// in order, with the profiles of the rules that compile to it.
pub proof fn law_doctor_looks_at_every_condition(
    rules: Seq<RuleView>,
    rule: int,
    place: int,
)
    requires
        0 <= rule < rules.len(),
        0 <= place < conditions_of(rules[rule]).len(),
    ensures
        ascending(keys(selections_of(rules))),
        exists|at: int|
            #![trigger selections_of(rules)[at]]
            {
                &&& 0 <= at < selections_of(rules).len()
                &&& selections_of(rules)[at].0 == conditions_of(rules[rule])[place]
                &&& selections_of(rules)[at].1 == selecting(
                    rules,
                    conditions_of(rules[rule])[place],
                )
                &&& selections_of(rules)[at].1.contains(rules[rule].profile)
            },
{
    let condition = conditions_of(rules[rule])[place];
    law_rules_are_grouped_by_condition(rules, condition);
    lemma_selected(rules, rule, place);
    assert(so_far(selections_of(rules), condition).contains(rules[rule].profile));
    if lookup(selections_of(rules), condition) is None {
        assert(so_far(selections_of(rules), condition).len() == 0);
    }
    let at = lemma_lookup_found(selections_of(rules), condition);
    assert(selections_of(rules)[at].0 == condition);
}

proof fn lemma_selected(rules: Seq<RuleView>, rule: int, place: int)
    requires
        0 <= rule < rules.len(),
        0 <= place < conditions_of(rules[rule]).len(),
    ensures
        selecting(rules, conditions_of(rules[rule])[place]).contains(rules[rule].profile),
    decreases rules.len(),
{
    let condition = conditions_of(rules[rule])[place];
    let rest = rules.drop_last();
    let earlier = selecting(rest, condition);
    let list = conditions_of(rules.last());
    let later = selected_in(list, condition, rules.last().profile);
    assert(selecting(rules, condition) == earlier + later);
    if rule < rest.len() {
        assert(rest[rule] == rules[rule]);
        lemma_selected(rest, rule, place);
        let i = choose|i: int| 0 <= i < earlier.len() && earlier[i] == rules[rule].profile;
        assert((earlier + later)[i] == rules[rule].profile);
    } else {
        lemma_selected_in(list, rules.last().profile, place);
        let i = choose|i: int| 0 <= i < later.len() && later[i] == rules[rule].profile;
        assert((earlier + later)[earlier.len() + i] == rules[rule].profile);
    }
}

proof fn lemma_selected_in(list: Seq<Seq<char>>, profile: Seq<char>, place: int)
    requires
        0 <= place < list.len(),
    ensures
        selected_in(list, list[place], profile).contains(profile),
    decreases list.len(),
{
    let all = selected_in(list, list[place], profile);
    let earlier = selected_in(list.drop_last(), list[place], profile);
    if list.last() == list[place] {
        assert(all[earlier.len() as int] == profile);
    } else {
        assert(list.drop_last()[place] == list[place]);
        lemma_selected_in(list.drop_last(), profile, place);
    }
}

////////////////////////////////////////////////////////////////////////////
// The generated files

/// What is said of a file that should hold `expected`: nothing if it holds
/// exactly these bytes, that it is stale if it holds others, that it is
/// missing if it could not be read.
pub open spec fn said_of_file(name: Seq<char>, expected: Seq<char>, actual: Option<Vec<u8>>) -> Seq<
    Seq<char>,
> {
    listed_if(
        actual is None,
        name + " is missing; run cloakroom apply"@,
    ) + listed_if(
        actual is Some && (actual->0)@ != encode_utf8(expected),
        name + " is stale; run cloakroom apply"@,
    )
}

/// What is said of the object at position `at`.
pub open spec fn said_of_object(compiled: CompiledView, tree: TreeOnDisk, at: int) -> Seq<
    Seq<char>,
> {
    said_of_file(
        "generated/objects/"@ + compiled.objects[at].0 + ".gitconfig"@,
        compiled.objects[at].1,
        if at < tree.objects@.len() {
            tree.objects@[at]
        } else {
            None
        },
    )
}

/// What is said of a name in the directory of the objects.
pub open spec fn said_of_name(compiled: CompiledView, name: Option<String>) -> Seq<Seq<char>> {
    listed_if(
        name is Some && exists|digest: Seq<char>|
            (name->0)@ == #[trigger] (digest + ".gitconfig"@) && forall|i: int|
                0 <= i < compiled.objects.len() ==> (#[trigger] compiled.objects[i]).0 != digest,
        "generated/objects/"@ + (name->0)@
            + " is not in the current manifest; run cloakroom apply"@,
    )
}

proof fn lemma_file(name: Seq<char>, expected: Seq<char>, actual: Option<Vec<u8>>)
    ensures
        file_issues(name, expected, optional_bytes(actual)) == said_of_file(name, expected, actual),
{
    assert(file_issues(name, expected, optional_bytes(actual)) =~= said_of_file(
        name,
        expected,
        actual,
    ));
}

proof fn lemma_objects(compiled: CompiledView, tree: TreeOnDisk, count: nat)
    requires
        count <= compiled.objects.len(),
    ensures
        objects_issues(compiled.objects, tree, count) == Seq::new(
            count,
            |at: int| said_of_object(compiled, tree, at),
        ).flatten(),
    decreases count,
{
    let parts = Seq::new(count, |at: int| said_of_object(compiled, tree, at));
    if count > 0 {
        let before = Seq::new((count - 1) as nat, |at: int| said_of_object(compiled, tree, at));
        lemma_objects(compiled, tree, (count - 1) as nat);
        assert(parts.drop_last() =~= before);
        lemma_flatten_last(parts);
        let at = count - 1;
        let actual = if at < tree.objects@.len() {
            tree.objects@[at]
        } else {
            None
        };
        lemma_file(
            "generated/objects/"@ + compiled.objects[at].0 + ".gitconfig"@,
            compiled.objects[at].1,
            actual,
        );
        assert(object_on_disk(tree, at) == optional_bytes(actual));
    } else {
        lemma_flatten_none(parts);
    }
}

proof fn lemma_name(compiled: CompiledView, name: Option<String>)
    ensures
        orphan(compiled.objects, optional_text(name)) <==> name is Some && exists|
            digest: Seq<char>,
        |
            (name->0)@ == #[trigger] (digest + ".gitconfig"@) && forall|i: int|
                0 <= i < compiled.objects.len() ==> (#[trigger] compiled.objects[i]).0 != digest,
{
    let objects = compiled.objects;
    if let Some(string) = name {
        let text = string@;
        if orphan(objects, Some(text)) {
            let digest = text.take(text.len() - ".gitconfig"@.len());
            assert(text == digest + ".gitconfig"@);
            assert forall|i: int| 0 <= i < objects.len() implies (#[trigger] objects[i]).0
                != digest by {
                if objects[i].0 == digest {
                    lemma_held(objects, digest, i);
                }
            }
        }
        if exists|digest: Seq<char>|
            text == #[trigger] (digest + ".gitconfig"@) && forall|i: int|
                0 <= i < objects.len() ==> (#[trigger] objects[i]).0 != digest {
            let digest = choose|digest: Seq<char>|
                text == #[trigger] (digest + ".gitconfig"@) && forall|i: int|
                    0 <= i < objects.len() ==> (#[trigger] objects[i]).0 != digest;
            law_prefixes_and_suffixes(text, ".gitconfig"@, digest);
            lemma_lookup_none(objects, digest);
        }
    }
}

proof fn lemma_held(objects: Seq<(Seq<char>, Seq<char>)>, digest: Seq<char>, at: int)
    requires
        0 <= at < objects.len(),
        objects[at].0 == digest,
    ensures
        lookup(objects, digest) is Some,
    decreases objects.len(),
{
    if objects[0].0 != digest {
        assert(objects.skip(1)[at - 1] == objects[at]);
        lemma_held(objects.skip(1), digest, at - 1);
    }
}

proof fn lemma_names(compiled: CompiledView, names: Seq<Option<String>>, count: nat)
    requires
        count <= names.len(),
    ensures
        orphan_issues(compiled.objects, names, count) == Seq::new(
            count,
            |at: int| said_of_name(compiled, names[at]),
        ).flatten(),
    decreases count,
{
    let parts = Seq::new(count, |at: int| said_of_name(compiled, names[at]));
    if count > 0 {
        let before = Seq::new((count - 1) as nat, |at: int| said_of_name(compiled, names[at]));
        lemma_names(compiled, names, (count - 1) as nat);
        assert(parts.drop_last() =~= before);
        lemma_flatten_last(parts);
        lemma_name(compiled, names[count - 1]);
        assert(orphan_issues(compiled.objects, names, count) =~= before.flatten() + said_of_name(
            compiled,
            names[count - 1],
        ));
    } else {
        lemma_flatten_none(parts);
    }
}

/// What doctor says of the generated files: of the root, of each object that
/// should be there, and of each name in the directory that is that of an
/// object which should not. If there is nothing to say, that they match.
pub proof fn law_doctor_on_the_generated_files(
    report: ReportView,
    compiled: CompiledView,
    tree: TreeOnDisk,
)
    ensures
        ({
            let wrong = said_of_file("generated/root.gitconfig"@, compiled.root, tree.root)
                + Seq::new(
                compiled.objects.len(),
                |at: int| said_of_object(compiled, tree, at),
            ).flatten() + Seq::new(
                tree.names@.len(),
                |at: int| said_of_name(compiled, tree.names@[at]),
            ).flatten();
            &&& tree_issues(compiled, tree) == wrong
            &&& with_tree(report, compiled, tree).lines == report.lines + (if wrong.len() == 0 {
                seq!["ok: "@ + "generated files match the configuration"@]
            } else {
                Seq::new(wrong.len(), |i: int| "issue: "@ + wrong[i])
            })
        }),
{
    lemma_file("generated/root.gitconfig"@, compiled.root, tree.root);
    lemma_objects(compiled, tree, compiled.objects.len());
    lemma_names(compiled, tree.names@, tree.names@.len());
    lemma_issues(report, tree_issues(compiled, tree));
    assert(tree_issues(compiled, tree).len() == 0 ==> with_tree(report, compiled, tree).lines
        =~= report.lines + seq!["ok: "@ + "generated files match the configuration"@]);
}

////////////////////////////////////////////////////////////////////////////
// Git

/// What doctor says of the managed include: exactly one has to lead to the
/// root.
pub proof fn law_doctor_on_the_include(report: ReportView, layout: LayoutView, count: nat)
    ensures
        with_include_count(report, layout, count).lines == report.lines.push(
            if count == 1 {
                "ok: "@ + "global gitconfig includes the generated root"@
            } else if count == 0 {
                "issue: "@ + ("global gitconfig does not include "@ + layout.include_path
                    + "; run cloakroom init"@)
            } else {
                "issue: "@ + ("global gitconfig includes the generated root "@ + decimal(count)
                    + " times; remove duplicate include.path entries: run git config --global --edit"@)
            },
        ),
{
}

/// What doctor says of the version of git.
pub proof fn law_doctor_on_the_version(report: ReportView, support: RemoteRuleSupport)
    ensures
        with_support(report, support).lines == report.lines.push(
            match support {
                RemoteRuleSupport::Supported => "ok: "@
                    + "git is new enough for hasconfig remote rules"@,
                RemoteRuleSupport::TooOld(major, minor) => "issue: "@ + ("git "@ + decimal(
                    major as nat,
                ) + "."@ + decimal(minor as nat)
                    + " does not support hasconfig conditions; remote rules need git 2.36 or newer"@
                    + "; upgrade git, then run cloakroom apply"@),
                RemoteRuleSupport::Unknown => "issue: "@
                    + ("could not parse the git version; remote rules need Git 2.36 or newer"@
                    + "; upgrade git, then run cloakroom apply"@),
            },
        ),
{
}

////////////////////////////////////////////////////////////////////////////
// The whole report

/// The order of the report: the configuration, then the files if there is a
/// valid configuration to compare them with, then the include, then the
/// version of git if some rule is a remote one, then the identity. Outside a
/// repository a note takes its place.
pub proof fn law_the_order_of_the_report(
    report: ReportView,
    layout: LayoutView,
    config: Option<ConfigView>,
    evidence: Evidence,
    identity: Option<IdentityView>,
    marker_is_genuine: bool,
)
    ensures
        ({
            let first = if config is Some && evidence.tree is Some {
                with_tree(report, tree_of(config->0), evidence.tree->0)
            } else {
                report
            };
            let second = with_include_count(first, layout, evidence.includes as nat);
            let third = if some_remote_rule(config) {
                with_support(second, evidence.support)
            } else {
                second
            };
            let whole = completed(report, layout, config, evidence, identity, marker_is_genuine);
            match identity {
                Some(identity) => whole == with_identity(
                    third,
                    Some(identity),
                    marker_is_genuine,
                    config,
                ),
                None => whole.lines == third.lines.push(
                    "note: "@ + "not inside a git repository; identity checks skipped"@,
                ) && whole.status == third.status,
            }
        }),
{
    assert(asks_for_remotes(config) == some_remote_rule(config));
}

/// The profiles that a condition selects are collected rule by rule, in order:
/// a rule adds its profile, and only that, exactly if it compiles to the
/// condition.
pub proof fn law_profiles_are_collected_rule_by_rule(
    left: Seq<RuleView>,
    right: Seq<RuleView>,
    rule: RuleView,
    condition: Seq<char>,
)
    ensures
        selecting(left + right, condition) == selecting(left, condition) + selecting(
            right,
            condition,
        ),
        selecting(seq![rule], condition).len() > 0 <==> conditions_of(rule).contains(condition),
        forall|i: int|
            0 <= i < selecting(seq![rule], condition).len() ==> #[trigger] selecting(
                seq![rule],
                condition,
            )[i] == rule.profile,
    decreases right.len(),
{
    let none = Seq::<RuleView>::empty();
    let list = conditions_of(rule);
    assert(seq![rule].drop_last() == none);
    assert(selecting(none, condition) == Seq::<Seq<char>>::empty());
    assert(selecting(seq![rule], condition) == selected_in(
        list,
        condition,
        rule.profile,
    ));
    lemma_only_its_profile(list, condition, rule.profile);
    if right.len() == 0 {
        assert(left + right == left);
        assert(selecting(left, condition) + selecting(right, condition) == selecting(
            left,
            condition,
        ));
    } else {
        law_profiles_are_collected_rule_by_rule(left, right.drop_last(), rule, condition);
        assert((left + right).drop_last() == left + right.drop_last());
        assert((left + right).last() == right.last());
        assert(selecting(left + right, condition) == selecting(left, condition) + selecting(
            right,
            condition,
        ));
    }
}

proof fn lemma_only_its_profile(list: Seq<Seq<char>>, condition: Seq<char>, profile: Seq<char>)
    ensures
        selected_in(list, condition, profile).len() > 0 <==> list.contains(
            condition,
        ),
        forall|i: int|
            0 <= i < selected_in(list, condition, profile).len()
                ==> #[trigger] selected_in(list, condition, profile)[i]
                == profile,
    decreases list.len(),
{
    if list.len() > 0 {
        lemma_only_its_profile(list.drop_last(), condition, profile);
        if list.drop_last().contains(condition) {
            let i = choose|i: int|
                0 <= i < list.drop_last().len() && list.drop_last()[i] == condition;
            assert(list[i] == condition);
        }
        if list.last() == condition {
            assert(list[list.len() - 1] == condition);
        } else if list.contains(condition) {
            let i = choose|i: int| 0 <= i < list.len() && list[i] == condition;
            assert(list.drop_last()[i] == condition);
        }
    }
}

}
