//! The declarative schema and its validation.
//!
//! Two shapes of the same data. `RawConfig` mirrors the file, with every
//! combination of fields the user could write. `Config` is what survives
//! `validate`: every rule names a profile that exists and carries exactly one
//! condition.

use vstd::prelude::*;
use vstd::string::StringExecFns;

use crate::number::{decimal, write_decimal};
use crate::profiles::{Profile, ProfileView, Profiles};
use crate::sorted_map::lookup;
use crate::text::{copy_texts, debug, debug_text, has_char, same_text, texts};

verus! {

/// The configuration as written.
#[derive(Debug)]
pub struct RawConfig {
    /// The identities, by key.
    pub profiles: Profiles,
    /// The rules in the order of the file. Git applies the last matching
    /// include, so order is the user's override mechanism.
    pub rules: Vec<RawRule>,
}

/// One selection rule as written. `path` and `remotes` are alternatives;
/// validation rejects a rule with both or with neither.
#[derive(Debug)]
pub struct RawRule {
    /// Key into `RawConfig::profiles`.
    pub profile: String,
    /// Repository location, handed to git's `gitdir` condition verbatim.
    pub path: Option<String>,
    /// Remote URL patterns for git's `hasconfig` condition. Any one matching
    /// selects the profile.
    pub remotes: Vec<String>,
    /// Match `path` case-insensitively (`gitdir/i`). Git has no
    /// case-insensitive `hasconfig`, so this is rejected on remote rules.
    pub case_insensitive: bool,
}

/// A validated config. Holding one means every rule resolves and every
/// condition is well formed.
#[derive(Debug)]
pub struct Config {
    pub profiles: Profiles,
    pub rules: Vec<Rule>,
}

/// One selection rule that passed validation.
#[derive(Debug, PartialEq, Eq)]
pub struct Rule {
    pub profile: String,
    pub condition: RuleCondition,
}

/// A rule's condition, already narrowed to the one git keyword it compiles
/// to.
#[derive(Debug, PartialEq, Eq)]
pub enum RuleCondition {
    Path { path: String, case_insensitive: bool },
    Remotes { patterns: Vec<String> },
}

////////////////////////////////////////////////////////////////////////////
// The mathematical values

/// A rule as written.
pub struct RawRuleView {
    pub profile: Seq<char>,
    pub path: Option<Seq<char>>,
    pub remotes: Seq<Seq<char>>,
    pub case_insensitive: bool,
}

/// A configuration as written.
pub struct RawConfigView {
    pub profiles: Seq<(Seq<char>, ProfileView)>,
    pub rules: Seq<RawRuleView>,
}

/// The condition of a valid rule.
pub enum ConditionView {
    Path { path: Seq<char>, case_insensitive: bool },
    Remotes { patterns: Seq<Seq<char>> },
}

/// A valid rule.
pub struct RuleView {
    pub profile: Seq<char>,
    pub condition: ConditionView,
}

/// A valid configuration.
pub struct ConfigView {
    pub profiles: Seq<(Seq<char>, ProfileView)>,
    pub rules: Seq<RuleView>,
}

/// The rules as written that a list holds.
pub open spec fn raw_rules(rules: Seq<RawRule>) -> Seq<RawRuleView> {
    rules.map_values(|rule: RawRule| rule@)
}

/// The valid rules that a list holds.
pub open spec fn valid_rules(rules: Seq<Rule>) -> Seq<RuleView> {
    rules.map_values(|rule: Rule| rule@)
}

impl View for RawRule {
    type V = RawRuleView;

    open spec fn view(&self) -> RawRuleView {
        RawRuleView {
            profile: self.profile@,
            path: match self.path {
                Some(path) => Some(path@),
                None => None,
            },
            remotes: texts(self.remotes@),
            case_insensitive: self.case_insensitive,
        }
    }
}

impl View for RawConfig {
    type V = RawConfigView;

    open spec fn view(&self) -> RawConfigView {
        RawConfigView {
            profiles: self.profiles@,
            rules: raw_rules(self.rules@),
        }
    }
}

impl View for RuleCondition {
    type V = ConditionView;

    open spec fn view(&self) -> ConditionView {
        match *self {
            RuleCondition::Path { path, case_insensitive } => ConditionView::Path {
                path: path@,
                case_insensitive,
            },
            RuleCondition::Remotes { patterns } => ConditionView::Remotes {
                patterns: texts(patterns@),
            },
        }
    }
}

impl View for Rule {
    type V = RuleView;

    open spec fn view(&self) -> RuleView {
        RuleView { profile: self.profile@, condition: self.condition@ }
    }
}

impl View for Config {
    type V = ConfigView;

    open spec fn view(&self) -> ConfigView {
        ConfigView {
            profiles: self.profiles@,
            rules: valid_rules(self.rules@),
        }
    }
}

////////////////////////////////////////////////////////////////////////////
// Characters that names and values may hold

/// Whether `c` may stand in a profile key.
pub open spec fn key_char(c: char) -> bool {
    ||| 'a' <= c <= 'z'
    ||| 'A' <= c <= 'Z'
    ||| '0' <= c <= '9'
    ||| c == '.'
    ||| c == '_'
    ||| c == '-'
}

/// Whether `key` may name a profile: plain ASCII, and not empty.
pub open spec fn valid_key(key: Seq<char>) -> bool {
    &&& key.len() > 0
    &&& forall|i: int| 0 <= i < key.len() ==> key_char(#[trigger] key[i])
}

/// Whether `c` is a control character: Unicode's general category Cc.
pub open spec fn control(c: char) -> bool {
    ||| c <= '\u{1f}'
    ||| '\u{7f}' <= c <= '\u{9f}'
}

/// Whether a control character occurs in `value`.
pub open spec fn has_control(value: Seq<char>) -> bool {
    exists|i: int| 0 <= i < value.len() && control(#[trigger] value[i])
}

/// Profile keys end up quoted inside generated gitconfig and unquoted in
/// every report. Restricting them to plain ASCII keeps both readable and
/// keeps comparison free of case and encoding questions.
pub fn is_valid_key(key: &str) -> (result: bool)
    ensures
        result == valid_key(key@),
{
    if key.is_empty() {
        return false;
    }
    for c in it: key.chars()
        invariant
            key@.len() > 0,
            it.seq() == key@,
            forall|i: int| 0 <= i < it.index() ==> key_char(#[trigger] key@[i]),
    {
        assert(key@[it.index()] == c);
        if !(('a' <= c && c <= 'z') || ('A' <= c && c <= 'Z') || ('0' <= c && c <= '9') || c == '.'
            || c == '_' || c == '-') {
            return false;
        }
    }
    true
}

/// A newline in a value would end the gitconfig line and let the rest inject
/// arbitrary configuration; other control characters are never legitimate in
/// a name, email, path, or URL pattern either.
pub fn has_control_character(value: &str) -> (result: bool)
    ensures
        result == has_control(value@),
{
    for c in it: value.chars()
        invariant
            it.seq() == value@,
            forall|i: int| 0 <= i < it.index() ==> !control(#[trigger] value@[i]),
    {
        assert(value@[it.index()] == c);
        if c <= '\u{1f}' || ('\u{7f}' <= c && c <= '\u{9f}') {
            return true;
        }
    }
    false
}

////////////////////////////////////////////////////////////////////////////
// What validation finds

/// No finding, or the one given.
pub open spec fn when(applies: bool, finding: Seq<char>) -> Seq<Seq<char>> {
    if applies {
        seq![finding]
    } else {
        seq![]
    }
}

/// What is wrong with the email of profile `key`.
pub open spec fn email_findings(key: Seq<char>, email: Seq<char>) -> Seq<Seq<char>> {
    if email.len() == 0 {
        seq!["profile "@ + key + ": email is empty"@]
    } else {
        when(
            !email.contains('@'),
            "profile "@ + key + ": email "@ + debug_text(email) + " has no '@'"@,
        )
    }
}

/// The finding on a control character in `field` of profile `key`.
pub open spec fn control_finding(key: Seq<char>, field: Seq<char>) -> Seq<char> {
    "profile "@ + key + ": "@ + field
        + " contains a control character; that would corrupt the generated gitconfig"@
}

/// Everything wrong with one profile.
pub open spec fn profile_findings(key: Seq<char>, profile: ProfileView) -> Seq<Seq<char>> {
    when(
        !valid_key(key),
        "profile key "@ + debug_text(key)
            + " may only contain letters, digits, '.', '_', and '-'"@,
    ) + when(profile.name.len() == 0, "profile "@ + key + ": name is empty"@) + email_findings(
        key,
        profile.email,
    ) + when(has_control(profile.name), control_finding(key, "name"@)) + when(
        has_control(profile.email),
        control_finding(key, "email"@),
    )
}

/// Everything wrong with any profile, in the order of their keys.
pub open spec fn profiles_findings(profiles: Seq<(Seq<char>, ProfileView)>) -> Seq<Seq<char>>
    decreases profiles.len(),
{
    if profiles.len() == 0 {
        seq![]
    } else {
        profiles_findings(profiles.drop_last()) + profile_findings(
            profiles.last().0,
            profiles.last().1,
        )
    }
}

/// How findings on the rule at position `index` begin: rules count from one.
pub open spec fn rule_label(index: int) -> Seq<char> {
    "rule "@ + decimal((index + 1) as nat)
}

/// What is wrong with the choice between path and remotes.
pub open spec fn choice_findings(label: Seq<char>, rule: RawRuleView) -> Seq<Seq<char>> {
    if rule.path is None && rule.remotes.len() == 0 {
        seq![label + ": needs a path or remotes; it can never match"@]
    } else {
        when(
            rule.path is Some && rule.remotes.len() > 0,
            label + ": has both path and remotes; write two rules instead"@,
        )
    }
}

/// What is wrong with the path.
pub open spec fn path_findings(label: Seq<char>, path: Option<Seq<char>>) -> Seq<Seq<char>> {
    match path {
        Some(path) => when(path.len() == 0, label + ": path is empty"@) + when(
            has_control(path),
            label + ": path contains a control character"@,
        ),
        None => seq![],
    }
}

/// What is wrong with one remote pattern.
pub open spec fn pattern_findings(label: Seq<char>, pattern: Seq<char>) -> Seq<Seq<char>> {
    when(pattern.len() == 0, label + ": a remote pattern is empty"@) + when(
        has_control(pattern),
        label + ": remote pattern "@ + debug_text(pattern) + " contains a control character"@,
    )
}

/// What is wrong with the remote patterns.
pub open spec fn remotes_findings(label: Seq<char>, remotes: Seq<Seq<char>>) -> Seq<Seq<char>>
    decreases remotes.len(),
{
    if remotes.len() == 0 {
        seq![]
    } else {
        remotes_findings(label, remotes.drop_last()) + pattern_findings(label, remotes.last())
    }
}

/// Whether the rule at `index` repeats an earlier one, profile included.
pub open spec fn repeats(rules: Seq<RawRuleView>, index: int) -> bool {
    exists|j: int| 0 <= j < index && #[trigger] rules[j] == rules[index]
}

/// Everything wrong with the rule at `index`.
pub open spec fn rule_findings(config: RawConfigView, index: int) -> Seq<Seq<char>> {
    let rule = config.rules[index];
    let label = rule_label(index);
    when(
        lookup(config.profiles, rule.profile) is None,
        label + ": unknown profile "@ + debug_text(rule.profile),
    ) + choice_findings(label, rule) + when(
        rule.case_insensitive && rule.path is None,
        label
            + ": case_insensitive only applies to path rules (git has gitdir/i but no case-insensitive hasconfig)"@,
    ) + path_findings(label, rule.path) + remotes_findings(label, rule.remotes) + when(
        repeats(config.rules, index),
        label + ": duplicate of an earlier rule"@,
    )
}

/// Everything wrong with the first `count` rules.
pub open spec fn rules_findings(config: RawConfigView, count: nat) -> Seq<Seq<char>>
    decreases count,
{
    if count == 0 {
        seq![]
    } else {
        rules_findings(config, (count - 1) as nat) + rule_findings(config, count - 1)
    }
}

/// Everything wrong with a configuration: the profiles, then the rules.
pub open spec fn findings(config: RawConfigView) -> Seq<Seq<char>> {
    profiles_findings(config.profiles) + rules_findings(config, config.rules.len())
}

/// A rule with its condition narrowed to the alternative it uses.
pub open spec fn narrowed(rule: RawRuleView) -> RuleView {
    RuleView {
        profile: rule.profile,
        condition: match rule.path {
            Some(path) => ConditionView::Path { path, case_insensitive: rule.case_insensitive },
            None => ConditionView::Remotes { patterns: rule.remotes },
        },
    }
}

/// Rules with their conditions narrowed, in the same order.
pub open spec fn all_narrowed(rules: Seq<RawRuleView>) -> Seq<RuleView> {
    rules.map_values(|rule: RawRuleView| narrowed(rule))
}

/// The configuration that a valid file stands for.
pub open spec fn accepted(config: RawConfigView) -> ConfigView {
    ConfigView {
        profiles: config.profiles,
        rules: all_narrowed(config.rules),
    }
}

////////////////////////////////////////////////////////////////////////////
// Validation

/// Adds a finding if it applies.
fn add_when(findings: &mut Vec<String>, applies: bool, finding: String)
    ensures
        texts(final(findings)@) == texts(old(findings)@) + when(applies, finding@),
{
    if applies {
        findings.push(finding);
        assert(texts(findings@) == texts(old(findings)@).push(finding@));
    }
    assert(texts(findings@) == texts(old(findings)@) + when(applies, finding@));
}

/// The finding on a control character in `field` of profile `key`.
fn control_message(key: &str, field: &str) -> (result: String)
    ensures
        result@ == control_finding(key@, field@),
{
    "profile ".to_owned().concat(key).concat(": ").concat(field).concat(
        " contains a control character; that would corrupt the generated gitconfig",
    )
}

/// Adds everything wrong with one profile.
fn check_profile(findings: &mut Vec<String>, key: &str, profile: &Profile)
    ensures
        texts(final(findings)@) == texts(old(findings)@) + profile_findings(key@, profile@),
{
    add_when(
        findings,
        !is_valid_key(key),
        "profile key ".to_owned().concat(debug(key).as_str()).concat(
            " may only contain letters, digits, '.', '_', and '-'",
        ),
    );
    add_when(
        findings,
        profile.name.as_str().is_empty(),
        "profile ".to_owned().concat(key).concat(": name is empty"),
    );
    if profile.email.as_str().is_empty() {
        add_when(findings, true, "profile ".to_owned().concat(key).concat(": email is empty"));
    } else {
        add_when(
            findings,
            !has_char(profile.email.as_str(), '@'),
            "profile ".to_owned().concat(key).concat(": email ").concat(
                debug(profile.email.as_str()).as_str(),
            ).concat(" has no '@'"),
        );
    }
    add_when(
        findings,
        has_control_character(profile.name.as_str()),
        control_message(key, "name"),
    );
    add_when(
        findings,
        has_control_character(profile.email.as_str()),
        control_message(key, "email"),
    );
    assert(texts(findings@) == texts(old(findings)@) + profile_findings(key@, profile@));
}

/// Adds everything wrong with the choice between path and remotes, the flag
/// and the values of one rule.
fn check_condition(findings: &mut Vec<String>, label: &str, rule: &RawRule)
    ensures
        texts(final(findings)@) == texts(old(findings)@) + choice_findings(label@, rule@) + when(
            rule.case_insensitive && rule.path is None,
            label@
                + ": case_insensitive only applies to path rules (git has gitdir/i but no case-insensitive hasconfig)"@,
        ) + path_findings(label@, rule@.path) + remotes_findings(label@, rule@.remotes),
{
    let no_path = rule.path.is_none();
    let no_remotes = rule.remotes.len() == 0;
    if no_path && no_remotes {
        add_when(
            findings,
            true,
            label.to_owned().concat(": needs a path or remotes; it can never match"),
        );
    } else {
        add_when(
            findings,
            !no_path && !no_remotes,
            label.to_owned().concat(": has both path and remotes; write two rules instead"),
        );
    }
    add_when(
        findings,
        rule.case_insensitive && no_path,
        label.to_owned().concat(
            ": case_insensitive only applies to path rules (git has gitdir/i but no case-insensitive hasconfig)",
        ),
    );
    let ghost reported = texts(findings@);
    if let Some(path) = &rule.path {
        add_when(findings, path.as_str().is_empty(), label.to_owned().concat(": path is empty"));
        add_when(
            findings,
            has_control_character(path.as_str()),
            label.to_owned().concat(": path contains a control character"),
        );
    }
    assert(texts(findings@) == reported + path_findings(label@, rule@.path));
    let ghost before = texts(findings@);
    let mut i: usize = 0;
    assert(rule@.remotes.take(0).len() == 0);
    while i < rule.remotes.len()
        invariant
            i <= rule.remotes@.len(),
            texts(findings@) == before + remotes_findings(label@, rule@.remotes.take(i as int)),
        decreases rule.remotes@.len() - i,
    {
        let pattern = &rule.remotes[i];
        add_when(
            findings,
            pattern.as_str().is_empty(),
            label.to_owned().concat(": a remote pattern is empty"),
        );
        add_when(
            findings,
            has_control_character(pattern.as_str()),
            label.to_owned().concat(": remote pattern ").concat(
                debug(pattern.as_str()).as_str(),
            ).concat(" contains a control character"),
        );
        proof {
            let longer = rule@.remotes.take(i + 1);
            assert(longer.drop_last() == rule@.remotes.take(i as int));
            assert(longer.last() == pattern@);
        }
        i = i + 1;
        assert(texts(findings@) == before + remotes_findings(
            label@,
            rule@.remotes.take(i as int),
        ));
    }
    assert(rule@.remotes.take(i as int) == rule@.remotes);
}

/// Whether two lists hold the same texts.
fn same_texts(left: &Vec<String>, right: &Vec<String>) -> (result: bool)
    ensures
        result == (texts(left@) == texts(right@)),
{
    if left.len() != right.len() {
        assert(texts(left@).len() != texts(right@).len());
        return false;
    }
    let mut i: usize = 0;
    while i < left.len()
        invariant
            left@.len() == right@.len(),
            i <= left@.len(),
            forall|k: int| 0 <= k < i ==> #[trigger] left@[k]@ == right@[k]@,
        decreases left@.len() - i,
    {
        if !same_text(left[i].as_str(), right[i].as_str()) {
            assert(texts(left@)[i as int] != texts(right@)[i as int]);
            return false;
        }
        i = i + 1;
    }
    assert(texts(left@) == texts(right@));
    true
}

/// Whether two rules say the same in every field.
fn same_rule(left: &RawRule, right: &RawRule) -> (result: bool)
    ensures
        result == (left@ == right@),
{
    let paths = match (&left.path, &right.path) {
        (Some(a), Some(b)) => same_text(a.as_str(), b.as_str()),
        (None, None) => true,
        _ => false,
    };
    paths && same_text(left.profile.as_str(), right.profile.as_str()) && same_texts(
        &left.remotes,
        &right.remotes,
    ) && left.case_insensitive == right.case_insensitive
}

/// Decides `repeats`.
fn is_repeat(rules: &Vec<RawRule>, index: usize) -> (result: bool)
    requires
        index < rules@.len(),
    ensures
        result == repeats(raw_rules(rules@), index as int),
{
    let ghost views = raw_rules(rules@);
    let mut j: usize = 0;
    while j < index
        invariant
            j <= index < rules@.len(),
            views == raw_rules(rules@),
            forall|k: int| 0 <= k < j ==> #[trigger] views[k] != views[index as int],
        decreases index - j,
    {
        if same_rule(&rules[j], &rules[index]) {
            assert(views[j as int] == views[index as int]);
            return true;
        }
        assert(views[j as int] == rules@[j as int]@);
        j = j + 1;
    }
    false
}

/// Narrows a rule to its condition.
fn narrow(rule: &RawRule) -> (result: Rule)
    ensures
        result@ == narrowed(rule@),
{
    let condition = match &rule.path {
        Some(path) => RuleCondition::Path {
            path: path.clone(),
            case_insensitive: rule.case_insensitive,
        },
        None => RuleCondition::Remotes { patterns: copy_texts(&rule.remotes) },
    };
    Rule { profile: rule.profile.clone(), condition }
}

/// Adds everything wrong with the rule at `index`.
fn check_rule(findings: &mut Vec<String>, config: &RawConfig, index: usize)
    requires
        index < config.rules@.len(),
    ensures
        texts(final(findings)@) == texts(old(findings)@) + rule_findings(config@, index as int),
{
    assert(index < config.rules.len());
    let rule = &config.rules[index];
    assert(config@.rules[index as int] == rule@);
    let ordinal = index + 1;
    let label = "rule ".to_owned().concat(write_decimal(ordinal as u64).as_str());
    add_when(
        findings,
        !config.profiles.contains_key(rule.profile.as_str()),
        label.clone().concat(": unknown profile ").concat(debug(rule.profile.as_str()).as_str()),
    );
    check_condition(findings, label.as_str(), rule);
    add_when(
        findings,
        is_repeat(&config.rules, index),
        label.concat(": duplicate of an earlier rule"),
    );
    proof {
        let rule = config@.rules[index as int];
        let label = rule_label(index as int);
        lemma_append_six(
            texts(old(findings)@),
            when(
                lookup(config@.profiles, rule.profile) is None,
                label + ": unknown profile "@ + debug_text(rule.profile),
            ),
            choice_findings(label, rule),
            when(
                rule.case_insensitive && rule.path is None,
                label
                    + ": case_insensitive only applies to path rules (git has gitdir/i but no case-insensitive hasconfig)"@,
            ),
            path_findings(label, rule.path),
            remotes_findings(label, rule.remotes),
            when(
                repeats(config@.rules, index as int),
                label + ": duplicate of an earlier rule"@,
            ),
        );
    }
}

/// Appending six lists one by one appends all six.
proof fn lemma_append_six(
    list: Seq<Seq<char>>,
    a: Seq<Seq<char>>,
    b: Seq<Seq<char>>,
    c: Seq<Seq<char>>,
    d: Seq<Seq<char>>,
    e: Seq<Seq<char>>,
    f: Seq<Seq<char>>,
)
    ensures
        list + a + b + c + d + e + f == list + (a + b + c + d + e + f),
{
}

/// Adds everything wrong with any profile.
fn check_profiles(findings: &mut Vec<String>, config: &RawConfig)
    ensures
        texts(final(findings)@) == texts(old(findings)@) + profiles_findings(config@.profiles),
{
    let ghost before = texts(findings@);
    let mut i: usize = 0;
    assert(config@.profiles.take(0).len() == 0);
    assert(before == before + profiles_findings(config@.profiles.take(0)));
    while i < config.profiles.len()
        invariant
            i <= config@.profiles.len(),
            texts(findings@) == before + profiles_findings(config@.profiles.take(i as int)),
        decreases config@.profiles.len() - i,
    {
        check_profile(
            findings,
            config.profiles.key_at(i).as_str(),
            config.profiles.value_at(i),
        );
        proof {
            let longer = config@.profiles.take(i + 1);
            assert(longer.drop_last() == config@.profiles.take(i as int));
            assert(longer.last() == config@.profiles[i as int]);
        }
        i = i + 1;
        assert(texts(findings@) == before + profiles_findings(config@.profiles.take(i as int)));
    }
    assert(config@.profiles.take(i as int) == config@.profiles);
}

/// Narrows every rule.
fn narrow_all(rules: &Vec<RawRule>) -> (result: Vec<Rule>)
    ensures
        valid_rules(result@) == all_narrowed(raw_rules(rules@)),
{
    let mut result: Vec<Rule> = Vec::new();
    let mut i: usize = 0;
    while i < rules.len()
        invariant
            i <= rules@.len(),
            result@.len() == i,
            forall|k: int| 0 <= k < i ==> (#[trigger] result@[k])@ == narrowed(rules@[k]@),
        decreases rules@.len() - i,
    {
        result.push(narrow(&rules[i]));
        i = i + 1;
    }
    assert(valid_rules(result@) == all_narrowed(raw_rules(rules@)));
    result
}

/// Collects every problem instead of stopping at the first, so one run shows
/// the whole repair list.
///
/// Findings name rules by their position, counted from one, because a rule
/// has no name of its own. A rule that fails is still checked for its other
/// problems. A configuration without findings is accepted with its rules in
/// the order they were written.
pub fn validate(config: RawConfig) -> (result: Result<Config, Vec<String>>)
    ensures
        result is Ok <==> findings(config@).len() == 0,
        result matches Ok(valid) ==> valid@ == accepted(config@),
        result matches Err(list) ==> texts(list@) == findings(config@),
{
    let mut list: Vec<String> = Vec::new();
    check_profiles(&mut list, &config);
    assert(texts(list@) == profiles_findings(config@.profiles));
    let mut index: usize = 0;
    while index < config.rules.len()
        invariant
            index <= config.rules@.len(),
            texts(list@) == profiles_findings(config@.profiles) + rules_findings(
                config@,
                index as nat,
            ),
        decreases config.rules@.len() - index,
    {
        check_rule(&mut list, &config, index);
        index = index + 1;
        assert(texts(list@) == profiles_findings(config@.profiles) + rules_findings(
            config@,
            index as nat,
        ));
    }
    assert(texts(list@).len() == list@.len());
    if list.len() == 0 {
        let rules = narrow_all(&config.rules);
        Ok(Config { profiles: config.profiles, rules })
    } else {
        Err(list)
    }
}

/// Whether some rule selects by remote URL.
pub open spec fn uses_remotes(config: ConfigView) -> bool {
    exists|i: int| 0 <= i < config.rules.len() && (#[trigger] config.rules[i]).condition is Remotes
}

impl Config {
    /// Whether compiling will emit `hasconfig` conditions, which need git
    /// 2.36. Path rules work on any git that has conditional includes.
    pub fn uses_remote_rules(&self) -> (result: bool)
        ensures
            result == uses_remotes(self@),
    {
        let mut i: usize = 0;
        while i < self.rules.len()
            invariant
                i <= self.rules@.len(),
                forall|k: int| 0 <= k < i ==> !((#[trigger] self@.rules[k]).condition is Remotes),
            decreases self.rules@.len() - i,
        {
            assert(self@.rules[i as int] == self.rules@[i as int]@);
            if let RuleCondition::Remotes { .. } = &self.rules[i].condition {
                return true;
            }
            i = i + 1;
        }
        false
    }
}

////////////////////////////////////////////////////////////////////////////
// Laws

/// Whether a value is fit for a generated file: not empty, and without
/// control characters.
pub open spec fn fit(value: Seq<char>) -> bool {
    value.len() > 0 && !has_control(value)
}

/// Whether a profile is as validation demands.
pub open spec fn sound_profile(key: Seq<char>, profile: ProfileView) -> bool {
    &&& valid_key(key)
    &&& fit(profile.name)
    &&& fit(profile.email)
    &&& profile.email.contains('@')
}

/// Whether all of `list` are fit.
pub open spec fn all_fit(list: Seq<Seq<char>>) -> bool {
    forall|i: int| 0 <= i < list.len() ==> fit(#[trigger] list[i])
}

/// Whether a rule as written has exactly one condition, and a fit one.
pub open spec fn sound_raw_rule(rule: RawRuleView) -> bool {
    match rule.path {
        Some(path) => fit(path) && rule.remotes.len() == 0,
        None => !rule.case_insensitive && rule.remotes.len() > 0 && all_fit(rule.remotes),
    }
}

/// Whether a configuration as written is one to accept: every profile is
/// sound, every rule is sound and names a profile that exists, and no rule is
/// written twice.
pub open spec fn acceptable(config: RawConfigView) -> bool {
    &&& forall|i: int|
        0 <= i < config.profiles.len() ==> sound_profile(
            (#[trigger] config.profiles[i]).0,
            config.profiles[i].1,
        )
    &&& forall|i: int|
        0 <= i < config.rules.len() ==> sound_raw_rule(#[trigger] config.rules[i]) && lookup(
            config.profiles,
            config.rules[i].profile,
        ) is Some
    &&& config.rules.no_duplicates()
}

/// Whether a condition is well formed.
pub open spec fn sound_condition(condition: ConditionView) -> bool {
    match condition {
        ConditionView::Path { path, .. } => fit(path),
        ConditionView::Remotes { patterns } => patterns.len() > 0 && all_fit(patterns),
    }
}

/// Whether every profile is sound, every rule resolves and every condition is
/// well formed.
pub open spec fn sound(config: ConfigView) -> bool {
    &&& forall|i: int|
        0 <= i < config.profiles.len() ==> sound_profile(
            (#[trigger] config.profiles[i]).0,
            config.profiles[i].1,
        )
    &&& forall|i: int|
        0 <= i < config.rules.len() ==> sound_condition((#[trigger] config.rules[i]).condition)
            && lookup(config.profiles, config.rules[i].profile) is Some
}

proof fn lemma_profile_findings(key: Seq<char>, profile: ProfileView)
    ensures
        profile_findings(key, profile).len() == 0 <==> sound_profile(key, profile),
{
}

/// Whether every profile is as validation demands.
spec fn sound_profiles(profiles: Seq<(Seq<char>, ProfileView)>) -> bool {
    forall|i: int|
        0 <= i < profiles.len() ==> sound_profile((#[trigger] profiles[i]).0, profiles[i].1)
}

/// Profiles are sound if the last one is and those before it are.
proof fn lemma_sound_profiles(profiles: Seq<(Seq<char>, ProfileView)>)
    requires
        profiles.len() > 0,
    ensures
        sound_profiles(profiles) <==> sound_profiles(profiles.drop_last()) && sound_profile(
            profiles.last().0,
            profiles.last().1,
        ),
{
    let rest = profiles.drop_last();
    if sound_profiles(profiles) {
        assert forall|i: int| 0 <= i < rest.len() implies sound_profile(
            (#[trigger] rest[i]).0,
            rest[i].1,
        ) by {
            assert(rest[i] == profiles[i]);
        }
    }
    if sound_profiles(rest) && sound_profile(profiles.last().0, profiles.last().1) {
        assert forall|i: int| 0 <= i < profiles.len() implies sound_profile(
            (#[trigger] profiles[i]).0,
            profiles[i].1,
        ) by {
            if i < rest.len() {
                assert(rest[i] == profiles[i]);
            }
        }
    }
}

#[verifier::spinoff_prover]
proof fn lemma_profiles_findings(profiles: Seq<(Seq<char>, ProfileView)>)
    ensures
        profiles_findings(profiles).len() == 0 <==> sound_profiles(profiles),
    decreases profiles.len(),
{
    if profiles.len() > 0 {
        let last = profiles.last();
        lemma_profiles_findings(profiles.drop_last());
        lemma_profile_findings(last.0, last.1);
        lemma_sound_profiles(profiles);
    }
}

proof fn lemma_remotes_findings(label: Seq<char>, remotes: Seq<Seq<char>>)
    ensures
        remotes_findings(label, remotes).len() == 0 <==> all_fit(remotes),
    decreases remotes.len(),
{
    if remotes.len() > 0 {
        let rest = remotes.drop_last();
        lemma_remotes_findings(label, rest);
        if remotes_findings(label, remotes).len() == 0 {
            assert forall|i: int| 0 <= i < remotes.len() implies fit(#[trigger] remotes[i]) by {
                if i < rest.len() {
                    assert(rest[i] == remotes[i]);
                }
            }
        } else if all_fit(remotes) {
            assert(fit(remotes[remotes.len() - 1]));
            assert forall|i: int| 0 <= i < rest.len() implies fit(#[trigger] rest[i]) by {
                assert(rest[i] == remotes[i]);
            }
        }
    }
}

proof fn lemma_rule_findings(config: RawConfigView, index: int)
    ensures
        rule_findings(config, index).len() == 0 <==> sound_raw_rule(config.rules[index]) && lookup(
            config.profiles,
            config.rules[index].profile,
        ) is Some && !repeats(config.rules, index),
{
    lemma_remotes_findings(rule_label(index), config.rules[index].remotes);
}

proof fn lemma_rules_findings(config: RawConfigView, count: nat)
    requires
        count <= config.rules.len(),
    ensures
        rules_findings(config, count).len() == 0 <==> forall|i: int|
            0 <= i < count ==> rule_findings(config, i).len() == 0,
    decreases count,
{
    if count > 0 {
        lemma_rules_findings(config, (count - 1) as nat);
    }
}

/// Validation accepts exactly the acceptable configurations: it has no
/// finding if and only if every profile is sound, every rule names a profile
/// that exists and carries exactly one condition, and no rule is written
/// twice. Rules that differ in their profile alone are not duplicates.
pub proof fn law_validation_accepts_exactly_the_acceptable(config: RawConfigView)
    ensures
        findings(config).len() == 0 <==> acceptable(config),
{
    lemma_profiles_findings(config.profiles);
    lemma_rules_findings(config, config.rules.len());
    assert forall|i: int| 0 <= i < config.rules.len() implies (#[trigger] rule_findings(
        config,
        i,
    ).len() == 0 <==> sound_raw_rule(config.rules[i]) && lookup(
        config.profiles,
        config.rules[i].profile,
    ) is Some && !repeats(config.rules, i)) by {
        lemma_rule_findings(config, i);
    }
    if acceptable(config) {
        assert forall|i: int| 0 <= i < config.rules.len() implies #[trigger] rule_findings(
            config,
            i,
        ).len() == 0 by {
            assert(sound_raw_rule(config.rules[i]));
        }
    }
    if findings(config).len() == 0 {
        assert forall|i: int, j: int|
            0 <= i < config.rules.len() && 0 <= j < config.rules.len() && i
                != j implies config.rules[i] != config.rules[j] by {
            assert(rule_findings(config, i).len() == 0);
            assert(rule_findings(config, j).len() == 0);
        }
        assert forall|i: int| 0 <= i < config.rules.len() implies sound_raw_rule(
            #[trigger] config.rules[i],
        ) && lookup(config.profiles, config.rules[i].profile) is Some by {
            assert(rule_findings(config, i).len() == 0);
        }
    }
}

/// An accepted configuration is sound: every rule resolves and every
/// condition is well formed.
pub proof fn law_accepted_configurations_are_sound(config: RawConfigView)
    requires
        findings(config).len() == 0,
    ensures
        sound(accepted(config)),
{
    law_validation_accepts_exactly_the_acceptable(config);
    assert forall|i: int| 0 <= i < accepted(config).rules.len() implies sound_condition(
        (#[trigger] accepted(config).rules[i]).condition,
    ) && lookup(config.profiles, accepted(config).rules[i].profile) is Some by {
        assert(sound_raw_rule(config.rules[i]));
    }
}

/// Validation keeps the profiles and the order of the rules, and gives each
/// rule the condition it was written with.
pub proof fn law_rule_order_is_preserved(config: RawConfigView, index: int)
    requires
        findings(config).len() == 0,
        0 <= index < config.rules.len(),
    ensures
        accepted(config).profiles == config.profiles,
        accepted(config).rules.len() == config.rules.len(),
        accepted(config).rules[index].profile == config.rules[index].profile,
        match accepted(config).rules[index].condition {
            ConditionView::Path { path, case_insensitive } => config.rules[index].path == Some(path)
                && config.rules[index].case_insensitive == case_insensitive,
            ConditionView::Remotes { patterns } => config.rules[index].path is None
                && config.rules[index].remotes == patterns,
        },
{
}

}
