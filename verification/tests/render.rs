use cloakroom::config::{Config, Rule, RuleCondition};
use cloakroom::profiles::{Profile, Profiles};
use cloakroom::render::{compile, conditions, quote, write_hex};
use cloakroom::status::is_digest;

fn profiles(list: &[(&str, &str, &str)]) -> Profiles {
    let mut result = Profiles::new();
    for (key, name, email) in list {
        result.insert(
            key.to_string(),
            Profile {
                name: name.to_string(),
                email: email.to_string(),
            },
        );
    }
    result
}

fn path_rule(profile: &str, path: &str, case_insensitive: bool) -> Rule {
    Rule {
        profile: profile.to_owned(),
        condition: RuleCondition::Path {
            path: path.to_owned(),
            case_insensitive,
        },
    }
}

#[test]
fn an_empty_config_compiles_to_an_empty_root() {
    let compiled = compile(&Config {
        profiles: Profiles::new(),
        rules: Vec::new(),
    });
    assert_eq!(compiled.root, "");
    assert!(compiled.objects.is_empty());
}

#[test]
fn objects_are_named_by_the_digest_of_what_they_hold() {
    let compiled = compile(&Config {
        profiles: profiles(&[("a", "A", "a@b")]),
        rules: Vec::new(),
    });
    let contents = "[user]\n\tname = \"A\"\n\temail = \"a@b\"\n[cloakroom]\n\tprofile = \"a\"\n";
    assert_eq!(compiled.objects.len(), 1);
    assert_eq!(compiled.objects.value_at(0), contents);
    let digest = <sha2::Sha256 as sha2::Digest>::digest(contents.as_bytes());
    let expected: String = digest.iter().map(|byte| format!("{byte:02x}")).collect();
    assert_eq!(compiled.objects.key_at(0), &expected);
    assert!(is_digest(&expected));
    assert_eq!(compiled.root, "");
}

#[test]
fn every_profile_has_an_object_and_the_root_follows_the_rules() {
    let compiled = compile(&Config {
        profiles: profiles(&[("a", "A", "a@b"), ("b", "B", "b@b"), ("c", "C", "c@b")]),
        rules: vec![path_rule("b", "~/x/", false), path_rule("a", "~/y/", true)],
    });
    assert_eq!(compiled.objects.len(), 3);
    let lines: Vec<&str> = compiled.root.lines().collect();
    assert_eq!(lines.len(), 4);
    assert_eq!(lines[0], "[includeIf \"gitdir:~/x/\"]");
    assert_eq!(lines[2], "[includeIf \"gitdir/i:~/y/\"]");
    for (line, profile) in [(lines[1], "\"b\""), (lines[3], "\"a\"")] {
        let digest = line
            .strip_prefix("\tpath = objects/")
            .and_then(|name| name.strip_suffix(".gitconfig"))
            .unwrap();
        assert!(compiled.objects.get(digest).unwrap().contains(profile));
    }
}

#[test]
fn remote_rules_compile_to_one_condition_per_pattern() {
    let rule = Rule {
        profile: "a".to_owned(),
        condition: RuleCondition::Remotes {
            patterns: vec!["git@h:o/**".to_owned(), "https://h/o/**".to_owned()],
        },
    };
    assert_eq!(
        conditions(&rule),
        vec![
            "hasconfig:remote.*.url:git@h:o/**",
            "hasconfig:remote.*.url:https://h/o/**",
        ]
    );
}

#[test]
fn quotes_and_backslashes_are_escaped() {
    assert_eq!(quote("a \"b\" \\c"), "\"a \\\"b\\\" \\\\c\"");
    assert_eq!(quote(""), "\"\"");
}

#[test]
fn hexadecimal_is_lower_case_with_leading_zeros() {
    assert_eq!(write_hex(&[0, 9, 10, 255, 171]), "00090affab");
}

#[test]
fn compilation_is_deterministic() {
    let config = || Config {
        profiles: profiles(&[("b", "B", "b@b"), ("a", "A", "a@b")]),
        rules: vec![path_rule("a", "~/x/", false)],
    };
    let (left, right) = (compile(&config()), compile(&config()));
    assert_eq!(left.root, right.root);
    assert_eq!(left.objects.key_at(0), right.objects.key_at(0));
    assert!(left.objects.key_at(0) < left.objects.key_at(1));
}

#[test]
fn a_value_cannot_start_a_line_or_end_its_quotes() {
    let compiled = compile(&Config {
        profiles: profiles(&[("a", "A\"\\", "\"a@b")]),
        rules: Vec::new(),
    });
    assert_eq!(
        compiled.objects.value_at(0),
        "[user]\n\tname = \"A\\\"\\\\\"\n\temail = \"\\\"a@b\"\n[cloakroom]\n\tprofile = \"a\"\n"
    );
}
