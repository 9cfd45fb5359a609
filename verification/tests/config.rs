use cloakroom::config::{
    has_control_character, is_valid_key, validate, RawConfig, RawRule, RuleCondition,
};
use cloakroom::profiles::{Profile, Profiles};

/// The config the rest of the suite reasons about: two profiles, a path
/// rule, and a remote rule with two spellings of the same host.
const SAMPLE: &str = r#"
[profiles.personal]
name = "Pat Personal"
email = "pat@example.com"

[profiles.work]
name = "Pat Work"
email = "pat@work.example"

[[rules]]
profile = "work"
path = "~/src/work/"

[[rules]]
profile = "work"
remotes = [
  "git@example.com:work/**",
  "https://example.com/work/**",
]
"#;

fn text_of(table: &toml::Table, key: &str) -> Option<String> {
    table.get(key).map(|value| value.as_str().unwrap().to_owned())
}

fn parse(text: &str) -> RawConfig {
    let table: toml::Table = text.parse().unwrap();
    let mut profiles = Profiles::new();
    if let Some(list) = table.get("profiles") {
        for (key, value) in list.as_table().unwrap() {
            let value = value.as_table().unwrap();
            profiles.insert(
                key.clone(),
                Profile {
                    name: text_of(value, "name").unwrap(),
                    email: text_of(value, "email").unwrap(),
                },
            );
        }
    }
    let mut rules = Vec::new();
    if let Some(list) = table.get("rules") {
        for value in list.as_array().unwrap() {
            let value = value.as_table().unwrap();
            let remotes = match value.get("remotes") {
                Some(list) => list
                    .as_array()
                    .unwrap()
                    .iter()
                    .map(|pattern| pattern.as_str().unwrap().to_owned())
                    .collect(),
                None => Vec::new(),
            };
            rules.push(RawRule {
                profile: text_of(value, "profile").unwrap(),
                path: text_of(value, "path"),
                remotes,
                case_insensitive: value
                    .get("case_insensitive")
                    .map_or(false, |flag| flag.as_bool().unwrap()),
            });
        }
    }
    RawConfig { profiles, rules }
}

#[test]
fn the_sample_config_parses_and_validates() {
    let config = validate(parse(SAMPLE)).unwrap();
    assert_eq!(config.profiles.len(), 2);
    assert_eq!(config.rules.len(), 2);
}

#[test]
fn rule_order_is_preserved_from_the_toml() {
    let config = validate(parse(SAMPLE)).unwrap();
    assert!(matches!(
        &config.rules[0].condition,
        RuleCondition::Path { path, .. } if path == "~/src/work/"
    ));
    assert!(matches!(
        &config.rules[1].condition,
        RuleCondition::Remotes { patterns } if patterns.len() == 2
    ));
}

#[test]
fn an_empty_config_is_valid() {
    let config = validate(parse("")).unwrap();
    assert!(config.profiles.is_empty());
    assert!(config.rules.is_empty());
}

/// Assert that validation rejects `text` for the stated reason. Matching
/// against all findings keeps a test honest when the fixture trips more than
/// one rule.
fn single_finding(text: &str, needle: &str) {
    let findings = validate(parse(text)).unwrap_err();
    assert!(
        findings.iter().any(|finding| finding.contains(needle)),
        "expected a finding containing {needle:?}, got {findings:?}"
    );
}

#[test]
fn a_rule_must_reference_a_known_profile() {
    single_finding(
        "[[rules]]\nprofile = \"ghost\"\npath = \"~/x/\"\n",
        "unknown profile",
    );
}

#[test]
fn a_rule_needs_a_condition() {
    single_finding(
        "[profiles.a]\nname = \"A\"\nemail = \"a@b\"\n[[rules]]\nprofile = \"a\"\n",
        "needs a path or remotes",
    );
}

#[test]
fn a_rule_may_not_mix_path_and_remotes() {
    single_finding(
        "[profiles.a]\nname = \"A\"\nemail = \"a@b\"\n[[rules]]\nprofile = \"a\"\npath = \"~/x/\"\nremotes = [\"git@h:o/**\"]\n",
        "both path and remotes",
    );
}

#[test]
fn case_insensitive_is_rejected_on_remote_rules() {
    single_finding(
        "[profiles.a]\nname = \"A\"\nemail = \"a@b\"\n[[rules]]\nprofile = \"a\"\nremotes = [\"git@h:o/**\"]\ncase_insensitive = true\n",
        "case_insensitive only applies to path rules",
    );
}

#[test]
fn profile_keys_are_restricted_to_filename_safe_characters() {
    single_finding(
        "[profiles.\"a/b\"]\nname = \"A\"\nemail = \"a@b\"\n",
        "may only contain",
    );
}

#[test]
fn empty_and_at_less_identity_fields_are_rejected() {
    single_finding(
        "[profiles.a]\nname = \"\"\nemail = \"a@b\"\n",
        "name is empty",
    );
    single_finding(
        "[profiles.a]\nname = \"A\"\nemail = \"\"\n",
        "email is empty",
    );
    single_finding("[profiles.a]\nname = \"A\"\nemail = \"nope\"\n", "no '@'");
}

#[test]
fn control_characters_are_rejected_as_gitconfig_injection() {
    single_finding(
        "[profiles.a]\nname = \"A\\nB\"\nemail = \"a@b\"\n",
        "control character",
    );
    single_finding(
        "[profiles.a]\nname = \"A\"\nemail = \"a@b\"\n[[rules]]\nprofile = \"a\"\npath = \"~/x\\u0007/\"\n",
        "control character",
    );
    single_finding(
        "[profiles.a]\nname = \"A\"\nemail = \"a@b\"\n[[rules]]\nprofile = \"a\"\nremotes = [\"git@h:o/\\u0007\"]\n",
        "remote pattern",
    );
}

#[test]
fn empty_rule_values_are_rejected() {
    single_finding(
        "[profiles.a]\nname = \"A\"\nemail = \"a@b\"\n[[rules]]\nprofile = \"a\"\npath = \"\"\n",
        "path is empty",
    );
    single_finding(
        "[profiles.a]\nname = \"A\"\nemail = \"a@b\"\n[[rules]]\nprofile = \"a\"\nremotes = [\"\"]\n",
        "remote pattern is empty",
    );
}

#[test]
fn exact_duplicate_rules_are_rejected() {
    single_finding(
        "[profiles.a]\nname = \"A\"\nemail = \"a@b\"\n[[rules]]\nprofile = \"a\"\npath = \"~/x/\"\n[[rules]]\nprofile = \"a\"\npath = \"~/x/\"\n",
        "duplicate",
    );
}

#[test]
fn the_same_condition_under_different_profiles_is_allowed() {
    // Last include wins in git; doctor reports the shadowing, apply
    // accepts it.
    let text = "[profiles.a]\nname = \"A\"\nemail = \"a@b\"\n[profiles.b]\nname = \"B\"\nemail = \"b@b\"\n[[rules]]\nprofile = \"a\"\npath = \"~/x/\"\n[[rules]]\nprofile = \"b\"\npath = \"~/x/\"\n";
    assert!(validate(parse(text)).is_ok());
}

#[test]
fn every_finding_is_listed_in_order_with_its_exact_words() {
    let text = "[profiles.\"b c\"]\nname = \"\"\nemail = \"x\\u007fy\"\n[profiles.a]\nname = \"A\\nB\"\nemail = \"\"\n[[rules]]\nprofile = \"gh\\\"ost\"\ncase_insensitive = true\n[[rules]]\nprofile = \"a\"\npath = \"\\u0085\"\nremotes = [\"\", \"\\t\"]\n[[rules]]\nprofile = \"a\"\npath = \"\"\n[[rules]]\nprofile = \"a\"\npath = \"\"\n";
    assert_eq!(
        validate(parse(text)).unwrap_err(),
        vec![
            "profile a: email is empty",
            "profile a: name contains a control character; that would corrupt the generated gitconfig",
            "profile key \"b c\" may only contain letters, digits, '.', '_', and '-'",
            "profile b c: name is empty",
            "profile b c: email \"x\\u{7f}y\" has no '@'",
            "profile b c: email contains a control character; that would corrupt the generated gitconfig",
            "rule 1: unknown profile \"gh\\\"ost\"",
            "rule 1: needs a path or remotes; it can never match",
            "rule 1: case_insensitive only applies to path rules (git has gitdir/i but no case-insensitive hasconfig)",
            "rule 2: has both path and remotes; write two rules instead",
            "rule 2: path contains a control character",
            "rule 2: a remote pattern is empty",
            "rule 2: remote pattern \"\\t\" contains a control character",
            "rule 3: path is empty",
            "rule 4: path is empty",
            "rule 4: duplicate of an earlier rule",
        ]
    );
}

#[test]
fn keys_and_control_characters_agree_with_the_character_classes_of_std() {
    for code in 0..0x3000u32 {
        if let Some(c) = char::from_u32(code) {
            let text = c.to_string();
            assert_eq!(has_control_character(&text), c.is_control());
            assert_eq!(
                is_valid_key(&text),
                c.is_ascii_alphanumeric() || matches!(c, '.' | '_' | '-')
            );
        }
    }
    assert!(!is_valid_key(""));
}

#[test]
fn remote_rules_are_recognized() {
    assert!(validate(parse(SAMPLE)).unwrap().uses_remote_rules());
    assert!(!validate(parse("")).unwrap().uses_remote_rules());
    let text = "[profiles.a]\nname = \"A\"\nemail = \"a@b\"\n[[rules]]\nprofile = \"a\"\npath = \"~/x/\"\n";
    assert!(!validate(parse(text)).unwrap().uses_remote_rules());
}
