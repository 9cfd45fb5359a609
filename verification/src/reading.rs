//! What git reads back from the generated tree: which object the root includes
//! under which condition, and which identity an object sets.

use vstd::prelude::*;
use vstd::utf8::encode_utf8;

use crate::config::{ConditionView, ConfigView, RuleView};
use crate::order::{ascending, lemma_irreflexive};
use crate::profiles::ProfileView;
use crate::render::{
    conditions_of, digest_of, hex, include_text, includes_text, law_every_profile_has_an_object,
    law_objects_are_named_by_their_contents, law_quoted_values_are_read_back, lemma_hex,
    lemma_objects_ascend, object_text, quoted, read_quoted, root_text, rule_digest, rule_text,
    sha256, tree_of,
};
use crate::sorted_map::{keys, lemma_every_entry_is_found, lemma_lookup_found, lookup};
use crate::status::hex_digit;
use crate::text::{first_index, lemma_first_index};

verus! {

////////////////////////////////////////////////////////////////////////////
// A reader of gitconfig

/// What stands behind `head`, if `text` starts with it.
pub open spec fn behind(text: Seq<char>, head: Seq<char>) -> Option<Seq<char>> {
    if head.len() <= text.len() && text.take(head.len() as int) == head {
        Some(text.skip(head.len() as int))
    } else {
        None
    }
}

/// The quoted value that stands behind `head`, and what follows it.
pub open spec fn value_behind(text: Seq<char>, head: Seq<char>) -> Option<(Seq<char>, Seq<char>)> {
    match behind(text, head) {
        Some(tail) => if tail.len() > 0 && tail[0] == '"' {
            read_quoted(tail.skip(1))
        } else {
            None
        },
        None => None,
    }
}

/// The line at the start of `text`, and what follows it.
pub open spec fn first_line(text: Seq<char>) -> Option<(Seq<char>, Seq<char>)> {
    let end = first_index(text, '\n') as int;
    if end < text.len() {
        Some((text.take(end), text.skip(end + 1)))
    } else {
        None
    }
}

/// A conditional include at the start of `text`: its condition, the path it
/// includes, and what follows it.
pub open spec fn first_include(text: Seq<char>) -> Option<((Seq<char>, Seq<char>), Seq<char>)> {
    match value_behind(text, "[includeIf "@) {
        Some((condition, tail)) => match behind(tail, "]\n\tpath = "@) {
            Some(line) => match first_line(line) {
                Some((path, rest)) => Some(((condition, path), rest)),
                None => None,
            },
            None => None,
        },
        None => None,
    }
}

/// The conditional includes that a gitconfig is made of, in order: conditions
/// with the paths they include. None if it holds anything else.
#[verifier::opaque]
pub open spec fn read_includes(text: Seq<char>) -> Option<Seq<(Seq<char>, Seq<char>)>>
    decreases text.len(),
{
    if text.len() == 0 {
        Some(seq![])
    } else {
        match first_include(text) {
            Some((entry, rest)) => if rest.len() < text.len() {
                match read_includes(rest) {
                    Some(includes) => Some(seq![entry] + includes),
                    None => None,
                }
            } else {
                None
            },
            None => None,
        }
    }
}

/// What an object sets.
pub struct Setting {
    /// user.name
    pub name: Seq<char>,
    /// user.email
    pub email: Seq<char>,
    /// cloakroom.profile
    pub profile: Seq<char>,
}

/// What a gitconfig sets that is made of a user section and the marker. None
/// if it holds anything else.
pub open spec fn read_object(text: Seq<char>) -> Option<Setting> {
    match value_behind(text, "[user]\n\tname = "@) {
        Some((name, tail)) => match value_behind(tail, "\n\temail = "@) {
            Some((email, tail)) => match value_behind(tail, "\n[cloakroom]\n\tprofile = "@) {
                Some((profile, tail)) => if tail == seq!['\n'] {
                    Some(Setting { name, email, profile })
                } else {
                    None
                },
                None => None,
            },
            None => None,
        },
        None => None,
    }
}

proof fn lemma_behind(head: Seq<char>, tail: Seq<char>)
    ensures
        behind(head + tail, head) == Some(tail),
{
    assert((head + tail).take(head.len() as int) == head);
    assert((head + tail).skip(head.len() as int) == tail);
}

proof fn lemma_value_behind(head: Seq<char>, value: Seq<char>, rest: Seq<char>)
    ensures
        value_behind(head + quoted(value) + rest, head) == Some((value, rest)),
{
    let tail = quoted(value) + rest;
    assert(head + quoted(value) + rest == head + tail);
    lemma_behind(head, tail);
    law_quoted_values_are_read_back(value, rest);
    assert(tail.skip(1) == quoted(value).skip(1) + rest);
    assert(tail[0] == quoted(value)[0]);
}

////////////////////////////////////////////////////////////////////////////
// Objects

/// Hexadecimal loses nothing: each byte is written as two digits in lower
/// case, the upper half first.
pub proof fn law_hexadecimal_spells_the_bytes(bytes: Seq<u8>, index: int)
    requires
        0 <= index < bytes.len(),
    ensures
        hex(bytes).len() == 2 * bytes.len(),
        ({
            let upper = hex(bytes)[2 * index] as int;
            let lower = hex(bytes)[2 * index + 1] as int;
            &&& 48 <= upper <= 57 || 97 <= upper <= 102
            &&& 48 <= lower <= 57 || 97 <= lower <= 102
            &&& bytes[index] == 16 * (if upper <= 57 {
                upper - 48
            } else {
                upper - 87
            }) + (if lower <= 57 {
                lower - 48
            } else {
                lower - 87
            })
        }),
    decreases bytes.len(),
{
    lemma_hex(bytes);
    let rest = bytes.drop_last();
    lemma_hex(rest);
    if index < rest.len() {
        law_hexadecimal_spells_the_bytes(rest, index);
        assert(hex(bytes)[2 * index] == hex(rest)[2 * index]);
        assert(hex(bytes)[2 * index + 1] == hex(rest)[2 * index + 1]);
        assert(rest[index] == bytes[index]);
    } else {
        assert(bytes.last() == bytes[index]);
    }
}

/// Git reads from the object of a profile exactly the name and the email of
/// that profile, and its key as the marker, whatever these hold.
pub proof fn law_objects_set_the_identity_of_their_profile(key: Seq<char>, profile: ProfileView)
    ensures
        read_object(object_text(key, profile)) == Some(
            Setting { name: profile.name, email: profile.email, profile: key },
        ),
{
    let third = "\n[cloakroom]\n\tprofile = "@ + quoted(key) + "\n"@;
    let second = "\n\temail = "@ + quoted(profile.email) + third;
    let first = "[user]\n\tname = "@ + quoted(profile.name) + second;
    reveal_strlit("\n");
    assert("\n"@ == seq!['\n']);
    assert(object_text(key, profile) == first);
    lemma_value_behind("[user]\n\tname = "@, profile.name, second);
    lemma_value_behind("\n\temail = "@, profile.email, third);
    lemma_value_behind("\n[cloakroom]\n\tprofile = "@, key, "\n"@);
}

/// The objects of a tree are those of the profiles, one for each and no
/// other: each profile has an object that sets its identity, and each object
/// sets the identity of some profile. An object goes by the hexadecimal
/// SHA-256 digest of its bytes, and no two go by one name.
pub proof fn law_the_objects_are_those_of_the_profiles(config: ConfigView)
    ensures
        ({
            let objects = tree_of(config).objects;
            &&& forall|at: int|
                #![trigger config.profiles[at]]
                0 <= at < config.profiles.len() ==> exists|i: int|
                    0 <= i < objects.len() && (#[trigger] objects[i]).0 == hex(
                        sha256(
                            encode_utf8(object_text(config.profiles[at].0, config.profiles[at].1)),
                        ),
                    )
            &&& forall|i: int|
                #![trigger objects[i]]
                0 <= i < objects.len() ==> objects[i].0 == hex(sha256(encode_utf8(objects[i].1)))
                    && exists|at: int|
                    0 <= at < config.profiles.len() && read_object(objects[i].1) == Some(
                        Setting {
                            name: (#[trigger] config.profiles[at]).1.name,
                            email: config.profiles[at].1.email,
                            profile: config.profiles[at].0,
                        },
                    )
            &&& forall|i: int, j: int|
                0 <= i < j < objects.len() ==> (#[trigger] objects[i]).0 != (
                #[trigger] objects[j]).0
        }),
{
    let objects = tree_of(config).objects;
    let profiles = config.profiles;
    lemma_objects_ascend(profiles);
    assert forall|at: int| #![trigger profiles[at]] 0 <= at < profiles.len() implies exists|i: int|
        0 <= i < objects.len() && (#[trigger] objects[i]).0 == hex(
            sha256(encode_utf8(object_text(profiles[at].0, profiles[at].1))),
        ) by {
        law_every_profile_has_an_object(profiles, at);
        let i = lemma_lookup_found(objects, digest_of(object_text(profiles[at].0, profiles[at].1)));
        assert(objects[i].0 == digest_of(object_text(profiles[at].0, profiles[at].1)));
    }
    assert forall|i: int| #![trigger objects[i]] 0 <= i < objects.len() implies objects[i].0 == hex(
        sha256(encode_utf8(objects[i].1)),
    ) && exists|at: int|
        0 <= at < profiles.len() && read_object(objects[i].1) == Some(
            Setting {
                name: (#[trigger] profiles[at]).1.name,
                email: profiles[at].1.email,
                profile: profiles[at].0,
            },
        ) by {
        lemma_every_entry_is_found(objects, i);
        law_objects_are_named_by_their_contents(profiles, objects[i].0);
        let at = choose|at: int|
            0 <= at < profiles.len() && lookup(objects, objects[i].0) == Some(
                object_text((#[trigger] profiles[at]).0, profiles[at].1),
            );
        law_objects_set_the_identity_of_their_profile(profiles[at].0, profiles[at].1);
    }
    assert forall|i: int, j: int| 0 <= i < j < objects.len() implies (#[trigger] objects[i]).0 != (
    #[trigger] objects[j]).0 by {
        assert(keys(objects)[i] == objects[i].0);
        assert(keys(objects)[j] == objects[j].0);
        lemma_irreflexive(objects[i].0);
    }
}

////////////////////////////////////////////////////////////////////////////
// The root

proof fn lemma_first_include(condition: Seq<char>, digest: Seq<char>, rest: Seq<char>)
    requires
        !digest.contains('\n'),
    ensures
        first_include(include_text(condition, digest) + rest) == Some(
            ((condition, "objects/"@ + digest + ".gitconfig"@), rest),
        ),
{
    let path = "objects/"@ + digest + ".gitconfig"@;
    let line = path + seq!['\n'] + rest;
    let tail = "]\n\tpath = "@ + line;
    let text = include_text(condition, digest) + rest;
    reveal_strlit("]\n\tpath = objects/");
    reveal_strlit("]\n\tpath = ");
    reveal_strlit("objects/");
    reveal_strlit(".gitconfig\n");
    reveal_strlit(".gitconfig");
    assert("]\n\tpath = objects/"@ == "]\n\tpath = "@ + "objects/"@);
    assert(".gitconfig\n"@ == ".gitconfig"@ + seq!['\n']);
    assert(text == "[includeIf "@ + quoted(condition) + tail);
    lemma_value_behind("[includeIf "@, condition, tail);
    lemma_behind("]\n\tpath = "@, line);
    assert forall|k: int| 0 <= k < path.len() implies path[k] != '\n' by {
        let from: int = 8;
        if from <= k < 8 + digest.len() {
            assert(path[k] == digest[k - 8]);
            assert(digest.contains(digest[k - 8]));
        }
    }
    assert forall|k: int| 0 <= k < path.len() implies line[k] != '\n' by {
        assert(line[k] == path[k]);
    }
    lemma_first_index(line, '\n', path.len() as int);
    assert(line.take(path.len() as int) == path);
    assert(line.skip(path.len() as int + 1) == rest);
}

/// Reading an include and then the rest is reading both.
proof fn lemma_read_include(condition: Seq<char>, digest: Seq<char>, rest: Seq<char>)
    requires
        !digest.contains('\n'),
        read_includes(rest) is Some,
    ensures
        read_includes(include_text(condition, digest) + rest) == Some(
            seq![(condition, "objects/"@ + digest + ".gitconfig"@)] + read_includes(rest)->0,
        ),
{
    reveal(read_includes);
    reveal_strlit("[includeIf ");
    lemma_first_include(condition, digest, rest);
    assert(include_text(condition, digest).len() > 0);
}

/// Conditions with the one path that they include.
pub open spec fn paired(conditions: Seq<Seq<char>>, path: Seq<char>) -> Seq<
    (Seq<char>, Seq<char>),
> {
    Seq::new(conditions.len(), |i: int| (conditions[i], path))
}

proof fn lemma_read_all(conditions: Seq<Seq<char>>, digest: Seq<char>, rest: Seq<char>)
    requires
        !digest.contains('\n'),
        read_includes(rest) is Some,
    ensures
        read_includes(includes_text(conditions, digest) + rest) == Some(
            paired(conditions, "objects/"@ + digest + ".gitconfig"@) + read_includes(rest)->0,
        ),
    decreases conditions.len(),
{
    let path = "objects/"@ + digest + ".gitconfig"@;
    if conditions.len() == 0 {
        assert(includes_text(conditions, digest) + rest == rest);
        assert(paired(conditions, path) + read_includes(rest)->0 == read_includes(rest)->0);
    } else {
        let earlier = conditions.drop_last();
        let behind = include_text(conditions.last(), digest) + rest;
        lemma_read_include(conditions.last(), digest, rest);
        lemma_read_all(earlier, digest, behind);
        assert(includes_text(conditions, digest) + rest == includes_text(earlier, digest) + behind);
        assert(paired(conditions, path) + read_includes(rest)->0 == paired(earlier, path) + (seq![
            (conditions.last(), path),
        ] + read_includes(rest)->0));
    }
}

proof fn lemma_digest_stays_on_its_line(contents: Seq<char>)
    ensures
        !digest_of(contents).contains('\n'),
{
    let digest = digest_of(contents);
    lemma_hex(sha256(encode_utf8(contents)));
    assert forall|i: int| 0 <= i < digest.len() implies digest[i] != '\n' by {
        assert(hex_digit(digest[i]));
    }
}

/// The conditions under which a rule selects its profile, as git spells them:
/// the location of the repository, exact or regardless of case, or any one of
/// the remote URL patterns.
pub open spec fn meant(condition: ConditionView) -> Seq<Seq<char>> {
    match condition {
        ConditionView::Path { path, case_insensitive: false } => seq!["gitdir:"@ + path],
        ConditionView::Path { path, case_insensitive: true } => seq!["gitdir/i:"@ + path],
        ConditionView::Remotes { patterns } => Seq::new(
            patterns.len(),
            |i: int| "hasconfig:remote.*.url:"@ + patterns[i],
        ),
    }
}

/// A path rule compiles to one condition, `gitdir` or `gitdir/i` with the path
/// verbatim; a remote rule compiles to one condition for each of its patterns,
/// in order and verbatim.
pub proof fn law_conditions_are_what_the_rule_says(rule: RuleView)
    ensures
        conditions_of(rule) == meant(rule.condition),
        rule.condition matches ConditionView::Remotes { patterns } ==> {
            &&& conditions_of(rule).len() == patterns.len()
            &&& forall|i: int|
                0 <= i < patterns.len() ==> #[trigger] conditions_of(rule)[i]
                    == "hasconfig:remote.*.url:"@ + patterns[i]
        },
        rule.condition matches ConditionView::Path { path, case_insensitive } ==> {
            &&& conditions_of(rule).len() == 1
            &&& conditions_of(rule)[0] == (if case_insensitive {
                "gitdir/i:"@
            } else {
                "gitdir:"@
            }) + path
        },
{
    assert(conditions_of(rule) =~= meant(rule.condition));
}

/// What the root includes for a rule that selects the profile at position
/// `at`: the object of that profile, under each condition of the rule.
pub open spec fn includes_for(
    rule: RuleView,
    profiles: Seq<(Seq<char>, ProfileView)>,
    at: int,
) -> Seq<(Seq<char>, Seq<char>)> {
    paired(
        meant(rule.condition),
        "objects/"@ + hex(sha256(encode_utf8(object_text(profiles[at].0, profiles[at].1))))
            + ".gitconfig"@,
    )
}

proof fn lemma_read_rule(
    profiles: Seq<(Seq<char>, ProfileView)>,
    at: int,
    rule: RuleView,
    rest: Seq<char>,
)
    requires
        ascending(keys(profiles)),
        0 <= at < profiles.len(),
        profiles[at].0 == rule.profile,
        read_includes(rest) is Some,
    ensures
        read_includes(rule_text(profiles, rule) + rest) == Some(
            includes_for(rule, profiles, at) + read_includes(rest)->0,
        ),
{
    lemma_every_entry_is_found(profiles, at);
    let contents = object_text(profiles[at].0, profiles[at].1);
    assert(rule_digest(profiles, rule) == Some(digest_of(contents)));
    lemma_digest_stays_on_its_line(contents);
    law_conditions_are_what_the_rule_says(rule);
    lemma_read_all(conditions_of(rule), digest_of(contents), rest);
}

/// Git reads from the root, rule by rule, the object of the profile that the
/// rule selects under each condition of the rule: none is missing, none is
/// added, and the order is that of the rules. `picks` says at which position
/// each rule finds its profile.
pub proof fn law_the_root_is_read_back(config: ConfigView, picks: Seq<int>)
    requires
        ascending(keys(config.profiles)),
        picks.len() == config.rules.len(),
        forall|i: int|
            0 <= i < config.rules.len() ==> 0 <= #[trigger] picks[i] < config.profiles.len()
                && config.profiles[picks[i]].0 == config.rules[i].profile,
    ensures
        read_includes(tree_of(config).root) == Some(
            Seq::new(
                config.rules.len(),
                |i: int| includes_for(config.rules[i], config.profiles, picks[i]),
            ).flatten(),
        ),
{
    let profiles = config.profiles;
    let rules = config.rules;
    let parts = Seq::new(rules.len(), |i: int| includes_for(rules[i], profiles, picks[i]));
    assert(read_includes(Seq::empty()) == Some(Seq::<(Seq<char>, Seq<char>)>::empty())) by {
        reveal(read_includes);
    }
    lemma_read_rules(profiles, rules, picks, Seq::empty());
    assert(root_text(profiles, rules) + Seq::<char>::empty() == root_text(profiles, rules));
    assert(parts.flatten() + Seq::<(Seq<char>, Seq<char>)>::empty() == parts.flatten());
}

proof fn lemma_read_rules(
    profiles: Seq<(Seq<char>, ProfileView)>,
    rules: Seq<RuleView>,
    picks: Seq<int>,
    rest: Seq<char>,
)
    requires
        ascending(keys(profiles)),
        picks.len() == rules.len(),
        forall|i: int|
            0 <= i < rules.len() ==> 0 <= #[trigger] picks[i] < profiles.len()
                && profiles[picks[i]].0 == rules[i].profile,
        read_includes(rest) is Some,
    ensures
        read_includes(root_text(profiles, rules) + rest) == Some(
            Seq::new(
                rules.len(),
                |i: int| includes_for(rules[i], profiles, picks[i]),
            ).flatten() + read_includes(rest)->0,
        ),
    decreases rules.len(),
{
    let parts = Seq::new(rules.len(), |i: int| includes_for(rules[i], profiles, picks[i]));
    if rules.len() == 0 {
        assert(root_text(profiles, rules) + rest == rest);
        assert(parts.flatten() + read_includes(rest)->0 == read_includes(rest)->0);
    } else {
        let earlier = rules.drop_last();
        let last = rules.len() - 1;
        let behind = rule_text(profiles, rules.last()) + rest;
        assert forall|i: int| 0 <= i < earlier.len() implies 0 <= #[trigger] picks.drop_last()[i]
            < profiles.len() && profiles[picks.drop_last()[i]].0 == earlier[i].profile by {
            assert(picks.drop_last()[i] == picks[i]);
        }
        assert(0 <= picks[last] < profiles.len());
        lemma_read_rule(profiles, picks[last], rules.last(), rest);
        lemma_read_rules(profiles, earlier, picks.drop_last(), behind);
        let before = Seq::new(
            earlier.len(),
            |i: int| includes_for(earlier[i], profiles, picks.drop_last()[i]),
        );
        assert(parts.drop_last() =~= before);
        assert(root_text(profiles, rules) + rest == root_text(profiles, earlier) + behind);
        parts.lemma_flatten_and_flatten_alt_are_equivalent();
        before.lemma_flatten_and_flatten_alt_are_equivalent();
        assert(parts.flatten() == before.flatten() + parts.last());
        assert(parts.last() == includes_for(rules.last(), profiles, picks[last]));
        assert(before.flatten() + (parts.last() + read_includes(rest)->0) == parts.flatten()
            + read_includes(rest)->0);
    }
}

}
