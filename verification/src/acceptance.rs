//! Which configurations are accepted, and what is said of the others, over the
//! characters that were written.

use vstd::prelude::*;

use crate::config::{
    accepted, all_fit, choice_findings, control, findings, fit, has_control, key_char,
    law_validation_accepts_exactly_the_acceptable, narrowed, path_findings, pattern_findings,
    profile_findings, profiles_findings, remotes_findings, repeats, rule_findings, rules_findings,
    sound_profile, sound_raw_rule, uses_remotes, valid_key, ConditionView, RawConfigView,
    RawRuleView,
};
use crate::number::decimal;
use crate::profiles::ProfileView;
use crate::sorted_map::{lemma_lookup_at, lemma_lookup_found, lookup};
use crate::text::debug_text;

verus! {

////////////////////////////////////////////////////////////////////////////
// Characters

/// A key is valid exactly if it holds a character and holds only ASCII
/// letters, ASCII digits, dots, underscores and hyphens. Its length does not
/// matter.
pub proof fn law_keys_are_plain_ascii(key: Seq<char>)
    ensures
        valid_key(key) <==> key.len() > 0 && forall|i: int|
            #![trigger key[i]]
            0 <= i < key.len() ==> {
                let code = key[i] as int;
                ||| 48 <= code <= 57
                ||| 65 <= code <= 90
                ||| 97 <= code <= 122
                ||| code == 45 || code == 46 || code == 95
            },
{
    assert forall|i: int| #![trigger key[i]] 0 <= i < key.len() implies key_char(key[i]) == ({
        let code = key[i] as int;
        ||| 48 <= code <= 57
        ||| 65 <= code <= 90
        ||| 97 <= code <= 122
        ||| code == 45 || code == 46 || code == 95
    }) by {}
    if valid_key(key) {
        assert forall|i: int| #![trigger key[i]] 0 <= i < key.len() implies {
            let code = key[i] as int;
            ||| 48 <= code <= 57
            ||| 65 <= code <= 90
            ||| 97 <= code <= 122
            ||| code == 45 || code == 46 || code == 95
        } by {
            assert(key_char(key[i]));
        }
    }
}

/// Two texts make up a valid key exactly if each of them is one or is empty,
/// and they are not both empty.
pub proof fn law_keys_can_be_put_together(left: Seq<char>, right: Seq<char>)
    ensures
        valid_key(left) && valid_key(right) ==> valid_key(left + right),
        valid_key(left + right) <==> (valid_key(left) || left.len() == 0) && (valid_key(right)
            || right.len() == 0) && left.len() + right.len() > 0,
{
    let both = left + right;
    if valid_key(both) {
        assert forall|i: int| 0 <= i < left.len() implies key_char(#[trigger] left[i]) by {
            assert(both[i] == left[i]);
        }
        assert forall|i: int| 0 <= i < right.len() implies key_char(#[trigger] right[i]) by {
            assert(both[left.len() + i] == right[i]);
        }
    }
    if (valid_key(left) || left.len() == 0) && (valid_key(right) || right.len() == 0) {
        assert forall|i: int| 0 <= i < both.len() implies key_char(#[trigger] both[i]) by {
            if i < left.len() {
                assert(both[i] == left[i]);
            } else {
                assert(both[i] == right[i - left.len()]);
            }
        }
    }
}

/// A value has a control character exactly if it holds one of the codes below
/// a space, or one of those from delete to the end of the second control
/// block, wherever it stands.
pub proof fn law_control_characters_are_found(value: Seq<char>)
    ensures
        has_control(value) <==> exists|i: int|
            0 <= i < value.len() && ((#[trigger] value[i]) as int <= 31 || 127 <= value[i] as int
                <= 159),
{
    if has_control(value) {
        let i = choose|i: int| 0 <= i < value.len() && control(#[trigger] value[i]);
        assert(value[i] as int <= 31 || 127 <= value[i] as int <= 159);
    }
    if exists|i: int|
        0 <= i < value.len() && ((#[trigger] value[i]) as int <= 31 || 127 <= value[i] as int
            <= 159) {
        let i = choose|i: int|
            0 <= i < value.len() && ((#[trigger] value[i]) as int <= 31 || 127 <= value[i] as int
                <= 159);
        assert(control(value[i]));
    }
}

////////////////////////////////////////////////////////////////////////////
// What is said

/// A list of one text, if it is called for.
pub open spec fn listed_if(called_for: bool, text: Seq<char>) -> Seq<Seq<char>> {
    Seq::new(
        if called_for {
            1
        } else {
            0
        },
        |i: int| text,
    )
}

/// Whether a text is made of ASCII letters, ASCII digits, dots, underscores
/// and hyphens, at least one.
pub open spec fn plain(key: Seq<char>) -> bool {
    key.len() > 0 && forall|i: int|
        #![trigger key[i]]
        0 <= i < key.len() ==> {
            let code = key[i] as int;
            ||| 48 <= code <= 57
            ||| 65 <= code <= 90
            ||| 97 <= code <= 122
            ||| code == 45 || code == 46 || code == 95
        }
}

/// Whether a text would break out of its line or garble it.
pub open spec fn garbled(value: Seq<char>) -> bool {
    exists|i: int|
        0 <= i < value.len() && ((#[trigger] value[i]) as int <= 31 || 127 <= value[i] as int
            <= 159)
}

/// What is said of a profile: each thing that is wrong with it, and nothing
/// else.
pub proof fn law_findings_of_a_profile(key: Seq<char>, profile: ProfileView)
    ensures
        profile_findings(key, profile) == listed_if(
            !plain(key),
            "profile key "@ + debug_text(key)
                + " may only contain letters, digits, '.', '_', and '-'"@,
        ) + listed_if(profile.name.len() == 0, "profile "@ + key + ": name is empty"@) + listed_if(
            profile.email.len() == 0,
            "profile "@ + key + ": email is empty"@,
        ) + listed_if(
            profile.email.len() > 0 && !exists|i: int|
                0 <= i < profile.email.len() && #[trigger] profile.email[i] == '@',
            "profile "@ + key + ": email "@ + debug_text(profile.email) + " has no '@'"@,
        ) + listed_if(
            garbled(profile.name),
            "profile "@ + key + ": "@ + "name"@
                + " contains a control character; that would corrupt the generated gitconfig"@,
        ) + listed_if(
            garbled(profile.email),
            "profile "@ + key + ": "@ + "email"@
                + " contains a control character; that would corrupt the generated gitconfig"@,
        ),
{
    law_keys_are_plain_ascii(key);
    law_control_characters_are_found(profile.name);
    law_control_characters_are_found(profile.email);
    assert(profile.email.contains('@') <==> exists|i: int|
        0 <= i < profile.email.len() && #[trigger] profile.email[i] == '@');
}

/// What is said of a remote pattern.
pub open spec fn said_of_pattern(label: Seq<char>, pattern: Seq<char>) -> Seq<Seq<char>> {
    listed_if(pattern.len() == 0, label + ": a remote pattern is empty"@) + listed_if(
        garbled(pattern),
        label + ": remote pattern "@ + debug_text(pattern) + " contains a control character"@,
    )
}

proof fn lemma_findings_of_patterns(label: Seq<char>, remotes: Seq<Seq<char>>)
    ensures
        remotes_findings(label, remotes) == Seq::new(
            remotes.len(),
            |i: int| said_of_pattern(label, remotes[i]),
        ).flatten(),
    decreases remotes.len(),
{
    let parts = Seq::new(remotes.len(), |i: int| said_of_pattern(label, remotes[i]));
    if remotes.len() > 0 {
        let rest = remotes.drop_last();
        lemma_findings_of_patterns(label, rest);
        law_control_characters_are_found(remotes.last());
        let before = Seq::new(rest.len(), |i: int| said_of_pattern(label, rest[i]));
        assert(parts.drop_last() =~= before);
        parts.lemma_flatten_and_flatten_alt_are_equivalent();
        before.lemma_flatten_and_flatten_alt_are_equivalent();
        assert(pattern_findings(label, remotes.last()) =~= said_of_pattern(label, remotes.last()));
        assert(parts.flatten() == before.flatten() + parts.last());
    } else {
        assert(parts.flatten() =~= seq![]);
    }
}

/// What is said of a rule: each thing that is wrong with it, and nothing else.
/// Rules count from one.
pub proof fn law_findings_of_a_rule(config: RawConfigView, index: int)
    requires
        0 <= index < config.rules.len(),
    ensures
        ({
            let rule = config.rules[index];
            let label = "rule "@ + decimal((index + 1) as nat);
            rule_findings(config, index) == listed_if(
                !exists|at: int|
                    0 <= at < config.profiles.len() && (#[trigger] config.profiles[at]).0
                        == rule.profile,
                label + ": unknown profile "@ + debug_text(rule.profile),
            ) + listed_if(
                rule.path is None && rule.remotes.len() == 0,
                label + ": needs a path or remotes; it can never match"@,
            ) + listed_if(
                rule.path is Some && rule.remotes.len() > 0,
                label + ": has both path and remotes; write two rules instead"@,
            ) + listed_if(
                rule.path is None && rule.case_insensitive,
                label
                    + ": case_insensitive only applies to path rules (git has gitdir/i but no case-insensitive hasconfig)"@,
            ) + listed_if(
                rule.path is Some && (rule.path->0).len() == 0,
                label + ": path is empty"@,
            ) + listed_if(
                rule.path is Some && garbled(rule.path->0),
                label + ": path contains a control character"@,
            ) + Seq::new(
                rule.remotes.len(),
                |i: int| said_of_pattern(label, rule.remotes[i]),
            ).flatten() + listed_if(
                exists|j: int|
                    0 <= j < index && (#[trigger] config.rules[j]).profile == rule.profile
                        && config.rules[j].path == rule.path && config.rules[j].remotes
                        == rule.remotes && config.rules[j].case_insensitive
                        == rule.case_insensitive,
                label + ": duplicate of an earlier rule"@,
            )
        }),
{
    let rule = config.rules[index];
    let label = "rule "@ + decimal((index + 1) as nat);
    lemma_known_profile(config.profiles, rule.profile);
    lemma_findings_of_patterns(label, rule.remotes);
    lemma_repeated(config.rules, index);
    lemma_choice_and_path(label, rule);
    let unknown = crate::config::when(
        lookup(config.profiles, rule.profile) is None,
        label + ": unknown profile "@ + debug_text(rule.profile),
    );
    let flag = crate::config::when(
        rule.case_insensitive && rule.path is None,
        label
            + ": case_insensitive only applies to path rules (git has gitdir/i but no case-insensitive hasconfig)"@,
    );
    let twice = crate::config::when(
        repeats(config.rules, index),
        label + ": duplicate of an earlier rule"@,
    );
    lemma_listed(
        lookup(config.profiles, rule.profile) is None,
        label + ": unknown profile "@ + debug_text(rule.profile),
    );
    lemma_listed(
        rule.case_insensitive && rule.path is None,
        label
            + ": case_insensitive only applies to path rules (git has gitdir/i but no case-insensitive hasconfig)"@,
    );
    lemma_listed(repeats(config.rules, index), label + ": duplicate of an earlier rule"@);
    lemma_regroup(
        unknown,
        listed_if(
            rule.path is None && rule.remotes.len() == 0,
            label + ": needs a path or remotes; it can never match"@,
        ),
        listed_if(
            rule.path is Some && rule.remotes.len() > 0,
            label + ": has both path and remotes; write two rules instead"@,
        ),
        flag,
        listed_if(
            rule.path is Some && (rule.path->0).len() == 0,
            label + ": path is empty"@,
        ),
        listed_if(
            rule.path is Some && garbled(rule.path->0),
            label + ": path contains a control character"@,
        ),
        remotes_findings(label, rule.remotes),
        twice,
    );
}

proof fn lemma_listed(called_for: bool, text: Seq<char>)
    ensures
        crate::config::when(called_for, text) == listed_if(called_for, text),
{
}

/// Appending lists in pairs is appending them one by one.
proof fn lemma_regroup(
    a: Seq<Seq<char>>,
    b: Seq<Seq<char>>,
    c: Seq<Seq<char>>,
    d: Seq<Seq<char>>,
    e: Seq<Seq<char>>,
    f: Seq<Seq<char>>,
    g: Seq<Seq<char>>,
    h: Seq<Seq<char>>,
)
    ensures
        a + (b + c) + d + (e + f) + g + h == a + b + c + d + e + f + g + h,
{
    assert(a + (b + c) =~= a + b + c);
    let head = a + b + c + d;
    assert(head + (e + f) =~= head + e + f);
}

proof fn lemma_repeated(rules: Seq<RawRuleView>, index: int)
    requires
        0 <= index < rules.len(),
    ensures
        repeats(rules, index) <==> exists|j: int|
            0 <= j < index && (#[trigger] rules[j]).profile == rules[index].profile
                && rules[j].path == rules[index].path && rules[j].remotes == rules[index].remotes
                && rules[j].case_insensitive == rules[index].case_insensitive,
{
    let rule = rules[index];
    if repeats(rules, index) {
        let j = choose|j: int| 0 <= j < index && #[trigger] rules[j] == rule;
        assert(rules[j].profile == rule.profile);
    }
    if exists|j: int|
        0 <= j < index && (#[trigger] rules[j]).profile == rule.profile && rules[j].path
            == rule.path && rules[j].remotes == rule.remotes && rules[j].case_insensitive
            == rule.case_insensitive {
        let j = choose|j: int|
            0 <= j < index && (#[trigger] rules[j]).profile == rule.profile && rules[j].path
                == rule.path && rules[j].remotes == rule.remotes && rules[j].case_insensitive
                == rule.case_insensitive;
        assert(rules[j] == rule);
    }
}

proof fn lemma_choice_and_path(label: Seq<char>, rule: RawRuleView)
    ensures
        choice_findings(label, rule) == listed_if(
            rule.path is None && rule.remotes.len() == 0,
            label + ": needs a path or remotes; it can never match"@,
        ) + listed_if(
            rule.path is Some && rule.remotes.len() > 0,
            label + ": has both path and remotes; write two rules instead"@,
        ),
        path_findings(label, rule.path) == listed_if(
            rule.path is Some && (rule.path->0).len() == 0,
            label + ": path is empty"@,
        ) + listed_if(
            rule.path is Some && garbled(rule.path->0),
            label + ": path contains a control character"@,
        ),
{
    if rule.path is Some {
        law_control_characters_are_found(rule.path->0);
    }
}

proof fn lemma_known_profile(profiles: Seq<(Seq<char>, ProfileView)>, key: Seq<char>)
    ensures
        lookup(profiles, key) is Some <==> exists|at: int|
            0 <= at < profiles.len() && (#[trigger] profiles[at]).0 == key,
{
    if lookup(profiles, key) is Some {
        let at = lemma_lookup_found(profiles, key);
        assert(profiles[at].0 == key);
    } else if exists|at: int| 0 <= at < profiles.len() && (#[trigger] profiles[at]).0 == key {
        let at = lemma_first_holder(profiles, key, profiles.len() as int);
        lemma_lookup_at(profiles, at);
    }
}

proof fn lemma_first_holder(
    profiles: Seq<(Seq<char>, ProfileView)>,
    key: Seq<char>,
    end: int,
) -> (at: int)
    requires
        0 <= end <= profiles.len(),
        exists|at: int| 0 <= at < end && (#[trigger] profiles[at]).0 == key,
    ensures
        0 <= at < end,
        profiles[at].0 == key,
        forall|i: int| 0 <= i < at ==> (#[trigger] profiles[i]).0 != key,
    decreases end,
{
    let at = choose|at: int| 0 <= at < end && (#[trigger] profiles[at]).0 == key;
    if exists|i: int| 0 <= i < at && (#[trigger] profiles[i]).0 == key {
        lemma_first_holder(profiles, key, at)
    } else {
        at
    }
}

/// Validation says everything in one go: what it says of each profile in the
/// order of the keys, then what it says of each rule in the order of the file.
pub proof fn law_every_problem_is_said(config: RawConfigView)
    ensures
        findings(config) == Seq::new(
            config.profiles.len(),
            |i: int| profile_findings(config.profiles[i].0, config.profiles[i].1),
        ).flatten() + Seq::new(
            config.rules.len(),
            |i: int| rule_findings(config, i),
        ).flatten(),
{
    lemma_profiles_in_order(config.profiles);
    lemma_rules_in_order(config, config.rules.len());
}

proof fn lemma_profiles_in_order(profiles: Seq<(Seq<char>, ProfileView)>)
    ensures
        profiles_findings(profiles) == Seq::new(
            profiles.len(),
            |i: int| profile_findings(profiles[i].0, profiles[i].1),
        ).flatten(),
    decreases profiles.len(),
{
    let parts = Seq::new(
        profiles.len(),
        |i: int| profile_findings(profiles[i].0, profiles[i].1),
    );
    if profiles.len() > 0 {
        let rest = profiles.drop_last();
        lemma_profiles_in_order(rest);
        let before = Seq::new(rest.len(), |i: int| profile_findings(rest[i].0, rest[i].1));
        assert(parts.drop_last() =~= before);
        parts.lemma_flatten_and_flatten_alt_are_equivalent();
        before.lemma_flatten_and_flatten_alt_are_equivalent();
        assert(parts.flatten() == before.flatten() + parts.last());
    } else {
        assert(parts.flatten() =~= seq![]);
    }
}

proof fn lemma_rules_in_order(config: RawConfigView, count: nat)
    requires
        count <= config.rules.len(),
    ensures
        rules_findings(config, count) == Seq::new(
            count,
            |i: int| rule_findings(config, i),
        ).flatten(),
    decreases count,
{
    let parts = Seq::new(count, |i: int| rule_findings(config, i));
    if count > 0 {
        lemma_rules_in_order(config, (count - 1) as nat);
        let before = Seq::new((count - 1) as nat, |i: int| rule_findings(config, i));
        assert(parts.drop_last() =~= before);
        parts.lemma_flatten_and_flatten_alt_are_equivalent();
        before.lemma_flatten_and_flatten_alt_are_equivalent();
        assert(parts.flatten() == before.flatten() + parts.last());
    } else {
        assert(parts.flatten() =~= seq![]);
    }
}

////////////////////////////////////////////////////////////////////////////
// What is accepted

/// A configuration is accepted exactly if nothing is wrong with it: every key
/// is plain ASCII, every name and email is filled in and clean, every email
/// has an at sign, every rule names a profile that is there and has either a
/// path or remote patterns, all filled in and clean, only path rules ignore
/// case, and no rule is there twice.
pub proof fn law_sound_configurations_are_accepted(config: RawConfigView)
    ensures
        findings(config).len() == 0 <==> {
            &&& forall|i: int|
                #![trigger config.profiles[i]]
                0 <= i < config.profiles.len() ==> {
                    let (key, profile) = config.profiles[i];
                    &&& plain(key)
                    &&& profile.name.len() > 0 && !garbled(profile.name)
                    &&& profile.email.len() > 0 && !garbled(profile.email)
                    &&& exists|k: int|
                        0 <= k < profile.email.len() && #[trigger] profile.email[k] == '@'
                }
            &&& forall|i: int|
                #![trigger config.rules[i]]
                0 <= i < config.rules.len() ==> {
                    let rule = config.rules[i];
                    &&& exists|at: int|
                        0 <= at < config.profiles.len() && (#[trigger] config.profiles[at]).0
                            == rule.profile
                    &&& match rule.path {
                        Some(path) => path.len() > 0 && !garbled(path) && rule.remotes.len() == 0,
                        None => !rule.case_insensitive && rule.remotes.len() > 0 && forall|k: int|
                            0 <= k < rule.remotes.len() ==> (#[trigger] rule.remotes[k]).len() > 0
                                && !garbled(rule.remotes[k]),
                    }
                }
            &&& forall|i: int, j: int|
                0 <= i < j < config.rules.len() ==> #[trigger] config.rules[i]
                    != #[trigger] config.rules[j]
        },
{
    law_validation_accepts_exactly_the_acceptable(config);
    assert forall|i: int| #![trigger config.profiles[i]] 0 <= i < config.profiles.len() implies ({
        let (key, profile) = config.profiles[i];
        sound_profile(key, profile) <==> {
            &&& plain(key)
            &&& profile.name.len() > 0 && !garbled(profile.name)
            &&& profile.email.len() > 0 && !garbled(profile.email)
            &&& exists|k: int| 0 <= k < profile.email.len() && #[trigger] profile.email[k] == '@'
        }
    }) by {
        let (key, profile) = config.profiles[i];
        law_keys_are_plain_ascii(key);
        law_control_characters_are_found(profile.name);
        law_control_characters_are_found(profile.email);
        assert(profile.email.contains('@') <==> exists|k: int|
            0 <= k < profile.email.len() && #[trigger] profile.email[k] == '@');
    }
    assert forall|i: int| #![trigger config.rules[i]] 0 <= i < config.rules.len() implies ({
        let rule = config.rules[i];
        sound_raw_rule(rule) && lookup(config.profiles, rule.profile) is Some <==> {
            &&& exists|at: int|
                0 <= at < config.profiles.len() && (#[trigger] config.profiles[at]).0
                    == rule.profile
            &&& match rule.path {
                Some(path) => path.len() > 0 && !garbled(path) && rule.remotes.len() == 0,
                None => !rule.case_insensitive && rule.remotes.len() > 0 && forall|k: int|
                    0 <= k < rule.remotes.len() ==> (#[trigger] rule.remotes[k]).len() > 0
                        && !garbled(rule.remotes[k]),
            }
        }
    }) by {
        lemma_sound_rule(config.profiles, config.rules[i]);
    }
}

proof fn lemma_sound_rule(profiles: Seq<(Seq<char>, ProfileView)>, rule: RawRuleView)
    ensures
        sound_raw_rule(rule) && lookup(profiles, rule.profile) is Some <==> {
            &&& exists|at: int|
                0 <= at < profiles.len() && (#[trigger] profiles[at]).0 == rule.profile
            &&& match rule.path {
                Some(path) => path.len() > 0 && !garbled(path) && rule.remotes.len() == 0,
                None => !rule.case_insensitive && rule.remotes.len() > 0 && forall|k: int|
                    0 <= k < rule.remotes.len() ==> (#[trigger] rule.remotes[k]).len() > 0
                        && !garbled(rule.remotes[k]),
            }
        },
{
    lemma_known_profile(profiles, rule.profile);
    if rule.path is Some {
        law_control_characters_are_found(rule.path->0);
    } else {
        assert forall|k: int| 0 <= k < rule.remotes.len() implies has_control(
            #[trigger] rule.remotes[k],
        ) == garbled(rule.remotes[k]) by {
            law_control_characters_are_found(rule.remotes[k]);
        }
        if all_fit(rule.remotes) {
            assert forall|k: int| 0 <= k < rule.remotes.len() implies (
            #[trigger] rule.remotes[k]).len() > 0 && !garbled(rule.remotes[k]) by {
                assert(fit(rule.remotes[k]));
            }
        }
    }
}

/// An accepted configuration is the one that was written: the same profiles,
/// and the same rules in the same order, each with the path and the flag, or
/// the patterns, that it was written with.
pub proof fn law_accepted_configurations_are_as_written(config: RawConfigView, index: int)
    requires
        0 <= index < config.rules.len(),
    ensures
        accepted(config).profiles == config.profiles,
        accepted(config).rules.len() == config.rules.len(),
        accepted(config).rules[index].profile == config.rules[index].profile,
        config.rules[index].path matches Some(path) ==> accepted(config).rules[index].condition == (
        ConditionView::Path { path, case_insensitive: config.rules[index].case_insensitive }),
        config.rules[index].path is None ==> accepted(config).rules[index].condition == (
        ConditionView::Remotes { patterns: config.rules[index].remotes }),
{
    assert(accepted(config).rules[index] == narrowed(config.rules[index]));
}

/// A configuration has remote rules exactly if some rule of it, wherever it
/// stands, was written without a path.
pub proof fn law_remote_rules_are_found_anywhere(config: RawConfigView)
    ensures
        uses_remotes(accepted(config)) <==> exists|i: int|
            0 <= i < config.rules.len() && (#[trigger] config.rules[i]).path is None,
{
    if uses_remotes(accepted(config)) {
        let i = choose|i: int|
            0 <= i < accepted(config).rules.len() && (
            #[trigger] accepted(config).rules[i]).condition is Remotes;
        law_accepted_configurations_are_as_written(config, i);
        assert(config.rules[i].path is None);
    }
    if exists|i: int| 0 <= i < config.rules.len() && (#[trigger] config.rules[i]).path is None {
        let i = choose|i: int|
            0 <= i < config.rules.len() && (#[trigger] config.rules[i]).path is None;
        law_accepted_configurations_are_as_written(config, i);
        assert(accepted(config).rules[i].condition is Remotes);
    }
}

}
