//! Turns a validated configuration into gitconfig text.
//!
//! The generated tree is one root, which holds includeIf conditions and
//! nothing else, and one object per profile, which holds its `[user]` block
//! and the marker that names it. Objects are named by the digest of what they
//! hold, and the root refers to them by relative paths. The same configuration
//! always compiles to the same bytes.

use vstd::prelude::*;
use vstd::string::StringExecFns;
use vstd::utf8::encode_utf8;

use crate::config::{
    control, has_control, sound, ConditionView, Config, ConfigView, Rule, RuleCondition, RuleView,
};
use crate::order::ascending;
use crate::profiles::{Profile, ProfileView};
use crate::sorted_map::{
    keys, lemma_lookup_found, lemma_put_ascending, lemma_put_lookup, lookup, put, SortedMap,
};
use crate::status::{digest_like, hex_digit, hexadecimal};
use crate::text::{characters, texts};

verus! {

/// The files of the generated tree.
#[derive(Debug)]
pub struct Compiled {
    /// The contents of the root.
    pub root: String,
    /// The contents of each object, by digest.
    pub objects: SortedMap<String>,
}

/// The files of the generated tree.
pub struct CompiledView {
    pub root: Seq<char>,
    pub objects: Seq<(Seq<char>, Seq<char>)>,
}

impl View for Compiled {
    type V = CompiledView;

    open spec fn view(&self) -> CompiledView {
        CompiledView { root: self.root@, objects: self.objects@ }
    }
}

////////////////////////////////////////////////////////////////////////////
// Digests

/// The SHA-256 digest of `bytes`.
pub uninterp spec fn sha256(bytes: Seq<u8>) -> Seq<u8>;

/// Calls `sha2::Sha256::digest`. Trusted: the digest depends on the bytes
/// alone and is 32 bytes long.
#[verifier::external_body]
fn digest_bytes(bytes: &[u8]) -> (result: Vec<u8>)
    ensures
        result@ == sha256(bytes@),
        result@.len() == 32,
{
    <sha2::Sha256 as sha2::Digest>::digest(bytes).to_vec()
}

/// The hexadecimal digit for `n`, in lower case.
pub open spec fn hex_char(n: int) -> char {
    if n < 10 {
        ('0' as int + n) as char
    } else {
        ('a' as int + (n - 10)) as char
    }
}

/// `bytes` in hexadecimal, two digits to a byte.
pub open spec fn hex(bytes: Seq<u8>) -> Seq<char>
    decreases bytes.len(),
{
    if bytes.len() == 0 {
        seq![]
    } else {
        hex(bytes.drop_last()).push(hex_char(bytes.last() as int / 16)).push(
            hex_char(bytes.last() as int % 16),
        )
    }
}

/// The hexadecimal digit for `n`.
fn hex_digit_of(n: u8) -> (result: char)
    requires
        n < 16,
    ensures
        result == hex_char(n as int),
{
    match n {
        0 => '0',
        1 => '1',
        2 => '2',
        3 => '3',
        4 => '4',
        5 => '5',
        6 => '6',
        7 => '7',
        8 => '8',
        9 => '9',
        10 => 'a',
        11 => 'b',
        12 => 'c',
        13 => 'd',
        14 => 'e',
        _ => 'f',
    }
}

/// Writes `bytes` in hexadecimal.
pub fn write_hex(bytes: &[u8]) -> (result: String)
    ensures
        result@ == hex(bytes@),
{
    let mut result = String::new();
    let mut i: usize = 0;
    assert(bytes@.take(0).len() == 0);
    while i < bytes.len()
        invariant
            i <= bytes@.len(),
            result@ == hex(bytes@.take(i as int)),
        decreases bytes@.len() - i,
    {
        proof {
            let longer = bytes@.take(i + 1);
            assert(longer.drop_last() == bytes@.take(i as int));
            assert(longer.last() == bytes@[i as int]);
        }
        result.push(hex_digit_of(bytes[i] / 16));
        result.push(hex_digit_of(bytes[i] % 16));
        i = i + 1;
    }
    assert(bytes@.take(i as int) == bytes@);
    result
}

/// The name that an object with these bytes goes by.
pub open spec fn digest_of_bytes(bytes: Seq<u8>) -> Seq<char> {
    hex(sha256(bytes))
}

/// The name that an object with these contents goes by.
pub open spec fn digest_of(contents: Seq<char>) -> Seq<char> {
    digest_of_bytes(encode_utf8(contents))
}

/// Hexadecimal has two digits to a byte.
pub proof fn lemma_hex(bytes: Seq<u8>)
    ensures
        hex(bytes).len() == 2 * bytes.len(),
        hexadecimal(hex(bytes)),
    decreases bytes.len(),
{
    if bytes.len() > 0 {
        lemma_hex(bytes.drop_last());
        let before = hex(bytes.drop_last());
        assert forall|i: int| 0 <= i < hex(bytes).len() implies hex_digit(
            #[trigger] hex(bytes)[i],
        ) by {
            if i < before.len() {
                assert(hex(bytes)[i] == before[i]);
            }
        }
    }
}

/// Names an object by its contents.
fn digest(contents: &str) -> (result: String)
    ensures
        result@ == digest_of(contents@),
        digest_like(result@),
{
    let bytes = digest_bytes(contents.as_bytes());
    proof {
        lemma_hex(bytes@);
    }
    write_hex(bytes.as_slice())
}

////////////////////////////////////////////////////////////////////////////
// Quoting

/// `text` with a backslash before each quote and each backslash.
pub open spec fn escaped(text: Seq<char>) -> Seq<char>
    decreases text.len(),
{
    if text.len() == 0 {
        seq![]
    } else if text.last() == '"' || text.last() == '\\' {
        escaped(text.drop_last()).push('\\').push(text.last())
    } else {
        escaped(text.drop_last()).push(text.last())
    }
}

/// `text` as a quoted gitconfig value.
pub open spec fn quoted(text: Seq<char>) -> Seq<char> {
    seq!['"'] + escaped(text) + seq!['"']
}

/// Quotes a text for gitconfig.
pub fn quote(text: &str) -> (result: String)
    ensures
        result@ == quoted(text@),
{
    let chars = characters(text);
    let mut result = String::new();
    result.push('"');
    let mut i: usize = 0;
    assert(text@.take(0).len() == 0);
    assert(result@ == seq!['"'] + escaped(text@.take(0)));
    while i < chars.len()
        invariant
            chars@ == text@,
            i <= chars@.len(),
            result@ == seq!['"'] + escaped(text@.take(i as int)),
        decreases chars@.len() - i,
    {
        let c = chars[i];
        proof {
            let longer = text@.take(i + 1);
            assert(longer.drop_last() == text@.take(i as int));
            assert(longer.last() == c);
        }
        if c == '"' || c == '\\' {
            result.push('\\');
        }
        result.push(c);
        i = i + 1;
        assert(result@ == seq!['"'] + escaped(text@.take(i as int)));
    }
    assert(text@.take(i as int) == text@);
    result.push('"');
    assert(result@ == quoted(text@));
    result
}

////////////////////////////////////////////////////////////////////////////
// Conditions

/// The pattern as a condition on any remote URL.
pub open spec fn remote_condition(pattern: Seq<char>) -> Seq<char> {
    "hasconfig:remote.*.url:"@ + pattern
}

/// The includeIf conditions that a rule compiles to: one for a path, one for
/// each remote pattern.
pub open spec fn conditions_of(rule: RuleView) -> Seq<Seq<char>> {
    match rule.condition {
        ConditionView::Path { path, case_insensitive } => if case_insensitive {
            seq!["gitdir/i:"@ + path]
        } else {
            seq!["gitdir:"@ + path]
        },
        ConditionView::Remotes { patterns } => patterns.map_values(
            |pattern: Seq<char>| remote_condition(pattern),
        ),
    }
}

/// The conditions that a rule compiles to, in order.
pub fn conditions(rule: &Rule) -> (result: Vec<String>)
    ensures
        texts(result@) == conditions_of(rule@),
{
    let mut result: Vec<String> = Vec::new();
    match &rule.condition {
        RuleCondition::Path { path, case_insensitive } => {
            if *case_insensitive {
                result.push("gitdir/i:".to_owned().concat(path.as_str()));
            } else {
                result.push("gitdir:".to_owned().concat(path.as_str()));
            }
        },
        RuleCondition::Remotes { patterns } => {
            let mut i: usize = 0;
            while i < patterns.len()
                invariant
                    i <= patterns@.len(),
                    result@.len() == i,
                    forall|k: int|
                        0 <= k < i ==> (#[trigger] result@[k])@ == remote_condition(patterns@[k]@),
                decreases patterns@.len() - i,
            {
                result.push("hasconfig:remote.*.url:".to_owned().concat(patterns[i].as_str()));
                i = i + 1;
            }
        },
    }
    assert(texts(result@) == conditions_of(rule@));
    result
}

////////////////////////////////////////////////////////////////////////////
// Compilation

/// The contents of the object of a profile.
pub open spec fn object_text(key: Seq<char>, profile: ProfileView) -> Seq<char> {
    "[user]\n\tname = "@ + quoted(profile.name) + "\n\temail = "@ + quoted(profile.email)
        + "\n[cloakroom]\n\tprofile = "@ + quoted(key) + "\n"@
}

/// The objects of a list of profiles, by digest.
pub open spec fn objects_of(profiles: Seq<(Seq<char>, ProfileView)>) -> Seq<(Seq<char>, Seq<char>)>
    decreases profiles.len(),
{
    if profiles.len() == 0 {
        seq![]
    } else {
        let contents = object_text(profiles.last().0, profiles.last().1);
        put(objects_of(profiles.drop_last()), digest_of(contents), contents)
    }
}

/// The lines of the root that include an object under a condition.
pub open spec fn include_text(condition: Seq<char>, digest: Seq<char>) -> Seq<char> {
    "[includeIf "@ + quoted(condition) + "]\n\tpath = objects/"@ + digest + ".gitconfig\n"@
}

/// The lines of the root that include an object under each of `conditions`.
pub open spec fn includes_text(conditions: Seq<Seq<char>>, digest: Seq<char>) -> Seq<char>
    decreases conditions.len(),
{
    if conditions.len() == 0 {
        seq![]
    } else {
        includes_text(conditions.drop_last(), digest) + include_text(conditions.last(), digest)
    }
}

/// The object that a rule includes.
pub open spec fn rule_digest(profiles: Seq<(Seq<char>, ProfileView)>, rule: RuleView) -> Option<
    Seq<char>,
> {
    match lookup(profiles, rule.profile) {
        Some(profile) => Some(digest_of(object_text(rule.profile, profile))),
        None => None,
    }
}

/// The lines of the root for one rule. A rule whose profile is missing, which
/// validation rules out, has none.
pub open spec fn rule_text(profiles: Seq<(Seq<char>, ProfileView)>, rule: RuleView) -> Seq<char> {
    match rule_digest(profiles, rule) {
        Some(digest) => includes_text(conditions_of(rule), digest),
        None => seq![],
    }
}

/// The root for a list of rules, in their order.
pub open spec fn root_text(
    profiles: Seq<(Seq<char>, ProfileView)>,
    rules: Seq<RuleView>,
) -> Seq<char>
    decreases rules.len(),
{
    if rules.len() == 0 {
        seq![]
    } else {
        root_text(profiles, rules.drop_last()) + rule_text(profiles, rules.last())
    }
}

/// The tree that a configuration compiles to.
pub open spec fn tree_of(config: ConfigView) -> CompiledView {
    CompiledView {
        root: root_text(config.profiles, config.rules),
        objects: objects_of(config.profiles),
    }
}

/// Writes the object of a profile.
fn write_object(key: &str, profile: &Profile) -> (result: String)
    ensures
        result@ == object_text(key@, profile@),
{
    "[user]\n\tname = ".to_owned().concat(quote(profile.name.as_str()).as_str()).concat(
        "\n\temail = ",
    ).concat(quote(profile.email.as_str()).as_str()).concat("\n[cloakroom]\n\tprofile = ").concat(
        quote(key).as_str(),
    ).concat("\n")
}

/// Appends the lines of one rule to the root.
fn write_rule(root: &mut String, profiles: &SortedMap<Profile>, rule: &Rule)
    ensures
        final(root)@ == old(root)@ + rule_text(profiles@, rule@),
{
    let ghost before = root@;
    match profiles.get(rule.profile.as_str()) {
        Some(profile) => {
            let digest = digest(write_object(rule.profile.as_str(), profile).as_str());
            let list = conditions(rule);
            let ghost all = conditions_of(rule@);
            let mut i: usize = 0;
            assert(all.take(0).len() == 0);
            assert(root@ == before + includes_text(all.take(0), digest@));
            while i < list.len()
                invariant
                    i <= list@.len(),
                    all == texts(list@),
                    root@ == before + includes_text(all.take(i as int), digest@),
                decreases list@.len() - i,
            {
                proof {
                    let longer = all.take(i + 1);
                    assert(longer.drop_last() == all.take(i as int));
                    assert(longer.last() == list@[i as int]@);
                }
                let lines = "[includeIf ".to_owned().concat(
                    quote(list[i].as_str()).as_str(),
                ).concat("]\n\tpath = objects/").concat(digest.as_str()).concat(".gitconfig\n");
                root.append(lines.as_str());
                i = i + 1;
                assert(root@ == before + includes_text(all.take(i as int), digest@));
            }
            assert(all.take(i as int) == all);
        },
        None => {},
    }
    assert(root@ == before + rule_text(profiles@, rule@));
}

/// Compiles a configuration. There is no configuration that does not compile.
/// Every object has a name that is recognized as that of one.
pub fn compile(config: &Config) -> (result: Compiled)
    ensures
        result@ == tree_of(config@),
        forall|i: int|
            0 <= i < result@.objects.len() ==> digest_like((#[trigger] result@.objects[i]).0),
{
    let mut objects: SortedMap<String> = SortedMap::new();
    let mut i: usize = 0;
    let ghost profiles = config@.profiles;
    assert(profiles.take(0).len() == 0);
    while i < config.profiles.len()
        invariant
            profiles == config@.profiles,
            i <= profiles.len(),
            objects@ == objects_of(profiles.take(i as int)),
            forall|k: int|
                0 <= k < objects@.len() ==> digest_like((#[trigger] objects@[k]).0),
        decreases profiles.len() - i,
    {
        proof {
            let longer = profiles.take(i + 1);
            assert(longer.drop_last() == profiles.take(i as int));
            assert(longer.last() == profiles[i as int]);
        }
        let contents = write_object(
            config.profiles.key_at(i).as_str(),
            config.profiles.value_at(i),
        );
        let name = digest(contents.as_str());
        let ghost earlier = objects@;
        proof {
            lemma_objects_ascend(profiles.take(i as int));
            lemma_put_ascending(earlier, name@, contents@);
        }
        objects.insert(name, contents);
        assert forall|k: int| 0 <= k < objects@.len() implies digest_like(
            (#[trigger] objects@[k]).0,
        ) by {
            if objects@[k].0 != name@ {
                let at = choose|at: int|
                    0 <= at < earlier.len() && keys(earlier)[at] == objects@[k].0;
                assert(digest_like(earlier[at].0));
            }
        }
        i = i + 1;
    }
    assert(profiles.take(i as int) == profiles);

    let mut root = String::new();
    let mut j: usize = 0;
    let ghost rules = config@.rules;
    assert(rules.take(0).len() == 0);
    while j < config.rules.len()
        invariant
            rules == config@.rules,
            j <= config.rules@.len(),
            root@ == root_text(config@.profiles, rules.take(j as int)),
        decreases config.rules@.len() - j,
    {
        proof {
            let longer = rules.take(j + 1);
            assert(longer.drop_last() == rules.take(j as int));
            assert(longer.last() == config.rules@[j as int]@);
        }
        write_rule(&mut root, &config.profiles, &config.rules[j]);
        j = j + 1;
    }
    assert(rules.take(j as int) == rules);
    Compiled { root, objects }
}

////////////////////////////////////////////////////////////////////////////
// Laws

/// What a reader of gitconfig takes from the text behind an opening quote: the
/// value up to the first quote that no backslash precedes, and what follows. A
/// backslash stands before a quote or a backslash alone: before other letters
/// git takes it for something else.
pub open spec fn read_quoted(text: Seq<char>) -> Option<(Seq<char>, Seq<char>)>
    decreases text.len(),
{
    if text.len() == 0 {
        None
    } else if text[0] == '"' {
        Some((seq![], text.skip(1)))
    } else if text[0] == '\\' {
        if text.len() == 1 || (text[1] != '"' && text[1] != '\\') {
            None
        } else {
            match read_quoted(text.skip(2)) {
                Some((value, rest)) => Some((seq![text[1]] + value, rest)),
                None => None,
            }
        }
    } else {
        match read_quoted(text.skip(1)) {
            Some((value, rest)) => Some((seq![text[0]] + value, rest)),
            None => None,
        }
    }
}

proof fn lemma_escaped_front(first: char, rest: Seq<char>)
    ensures
        escaped(seq![first] + rest) == escaped(seq![first]) + escaped(rest),
    decreases rest.len(),
{
    let text = seq![first] + rest;
    if rest.len() == 0 {
        assert(text == seq![first]);
        assert(escaped(seq![first]) + escaped(rest) == escaped(seq![first]));
    } else {
        lemma_escaped_front(first, rest.drop_last());
        assert(text.drop_last() == seq![first] + rest.drop_last());
        assert(text.last() == rest.last());
        assert(escaped(text) == escaped(seq![first]) + escaped(rest));
    }
}

proof fn lemma_escaped_one(c: char)
    ensures
        escaped(seq![c]) == (if c == '"' || c == '\\' {
            seq!['\\', c]
        } else {
            seq![c]
        }),
{
    assert(seq![c].drop_last() == Seq::<char>::empty());
    assert(escaped(Seq::<char>::empty()) == Seq::<char>::empty());
    assert(seq![c].last() == c);
}

/// A quoted value is read back as what it was, whatever it holds and whatever
/// follows it: no value can end its own quotes.
pub proof fn law_quoted_values_are_read_back(text: Seq<char>, rest: Seq<char>)
    ensures
        quoted(text)[0] == '"',
        read_quoted(quoted(text).skip(1) + rest) == Some((text, rest)),
    decreases text.len(),
{
    let stream = quoted(text).skip(1) + rest;
    assert(stream == escaped(text) + seq!['"'] + rest);
    if text.len() == 0 {
        assert(escaped(text) == Seq::<char>::empty());
        assert(stream[0] == '"');
        assert(stream.skip(1) == rest);
    } else {
        let first = text[0];
        let tail = text.skip(1);
        assert(text == seq![first] + tail);
        law_quoted_values_are_read_back(tail, rest);
        lemma_escaped_front(first, tail);
        lemma_escaped_one(first);
        let shorter = quoted(tail).skip(1) + rest;
        assert(shorter == escaped(tail) + seq!['"'] + rest);
        if first == '"' || first == '\\' {
            assert(stream == seq!['\\', first] + shorter);
            assert(stream.skip(2) == shorter);
        } else {
            assert(stream == seq![first] + shorter);
            assert(stream.skip(1) == shorter);
        }
        assert(seq![first] + tail == text);
    }
}

/// A value without control characters stays on its line once it is quoted:
/// no value can start a line of its own.
pub proof fn law_quoted_values_stay_on_their_line(text: Seq<char>)
    requires
        !has_control(text),
    ensures
        !quoted(text).contains('\n'),
{
    lemma_escaped_has_no_newline(text);
}

proof fn lemma_escaped_has_no_newline(text: Seq<char>)
    requires
        !has_control(text),
    ensures
        !escaped(text).contains('\n'),
    decreases text.len(),
{
    if text.len() > 0 {
        let rest = text.drop_last();
        assert forall|i: int| 0 <= i < rest.len() implies !control(#[trigger] rest[i]) by {
            assert(rest[i] == text[i]);
        }
        lemma_escaped_has_no_newline(rest);
        assert(!control(text[text.len() - 1]));
        let before = escaped(rest);
        assert forall|i: int| 0 <= i < escaped(text).len() implies escaped(text)[i] != '\n' by {
            if i < before.len() {
                assert(escaped(text)[i] == before[i]);
                assert(before.contains(before[i]));
            }
        }
    }
}

/// The root of a list of rules is made of the roots of its parts, in order. So
/// what a later rule says stands behind what an earlier one says, and git
/// applies the last include that matches.
pub proof fn law_later_rules_stand_behind_earlier_ones(
    profiles: Seq<(Seq<char>, ProfileView)>,
    earlier: Seq<RuleView>,
    later: Seq<RuleView>,
)
    ensures
        root_text(profiles, earlier + later) == root_text(profiles, earlier) + root_text(
            profiles,
            later,
        ),
    decreases later.len(),
{
    if later.len() == 0 {
        assert(earlier + later == earlier);
        assert(root_text(profiles, later) == Seq::<char>::empty());
        assert(root_text(profiles, earlier) + root_text(profiles, later) == root_text(
            profiles,
            earlier,
        ));
    } else {
        law_later_rules_stand_behind_earlier_ones(profiles, earlier, later.drop_last());
        assert((earlier + later).drop_last() == earlier + later.drop_last());
        assert((earlier + later).last() == later.last());
        assert(root_text(profiles, earlier + later) == root_text(profiles, earlier) + root_text(
            profiles,
            later,
        ));
    }
}

/// The objects of any profiles stand in the order of their digests.
pub proof fn lemma_objects_ascend(profiles: Seq<(Seq<char>, ProfileView)>)
    ensures
        ascending(keys(objects_of(profiles))),
    decreases profiles.len(),
{
    if profiles.len() > 0 {
        lemma_objects_ascend(profiles.drop_last());
        let contents = object_text(profiles.last().0, profiles.last().1);
        lemma_put_ascending(
            objects_of(profiles.drop_last()),
            digest_of(contents),
            contents,
        );
    }
}

/// Every profile has an object, whether or not a rule selects it. Only two
/// profiles whose objects have the same digest share one.
pub proof fn law_every_profile_has_an_object(
    profiles: Seq<(Seq<char>, ProfileView)>,
    index: int,
)
    requires
        0 <= index < profiles.len(),
    ensures
        lookup(
            objects_of(profiles),
            digest_of(object_text(profiles[index].0, profiles[index].1)),
        ) is Some,
    decreases profiles.len(),
{
    let rest = profiles.drop_last();
    let last = profiles.last();
    let contents = object_text(last.0, last.1);
    lemma_objects_ascend(rest);
    lemma_put_lookup(
        objects_of(rest),
        digest_of(contents),
        contents,
        digest_of(object_text(profiles[index].0, profiles[index].1)),
    );
    if index < rest.len() {
        law_every_profile_has_an_object(rest, index);
        assert(rest[index] == profiles[index]);
    }
}

/// An object is named by the digest of what it holds, and holds what some
/// profile says.
pub proof fn law_objects_are_named_by_their_contents(
    profiles: Seq<(Seq<char>, ProfileView)>,
    digest: Seq<char>,
)
    requires
        lookup(objects_of(profiles), digest) is Some,
    ensures
        digest == digest_of(lookup(objects_of(profiles), digest)->0),
        exists|i: int|
            0 <= i < profiles.len() && lookup(objects_of(profiles), digest) == Some(
                object_text((#[trigger] profiles[i]).0, profiles[i].1),
            ),
    decreases profiles.len(),
{
    if profiles.len() > 0 {
        let rest = profiles.drop_last();
        let last = profiles.last();
        let contents = object_text(last.0, last.1);
        lemma_objects_ascend(rest);
        lemma_put_lookup(objects_of(rest), digest_of(contents), contents, digest);
        if digest == digest_of(contents) {
            assert(profiles[profiles.len() - 1] == last);
        } else {
            law_objects_are_named_by_their_contents(rest, digest);
            let i = choose|i: int|
                0 <= i < rest.len() && lookup(objects_of(rest), digest) == Some(
                    object_text((#[trigger] rest[i]).0, rest[i].1),
                );
            assert(rest[i] == profiles[i]);
        }
    }
}

/// Every object that the root of a sound configuration names is one of the
/// compiled objects.
pub proof fn law_the_root_names_compiled_objects(config: ConfigView, index: int)
    requires
        sound(config),
        0 <= index < config.rules.len(),
    ensures
        rule_digest(config.profiles, config.rules[index]) matches Some(digest) && lookup(
            tree_of(config).objects,
            digest,
        ) is Some,
{
    let key = config.rules[index].profile;
    assert(lookup(config.profiles, key) is Some);
    let at = lemma_lookup_found(config.profiles, key);
    law_every_profile_has_an_object(config.profiles, at);
}

}
