//! Health checks: the configuration, the generated files, the managed
//! include, and the identity git actually resolves. Read-only; it diagnoses
//! and names the fix, it never repairs.
//!
//! Every issue line names the command that fixes it. A diagnosis the user
//! cannot act on is worse than silence, and repairing on their behalf would
//! make doctor unsafe to run when something is already wrong.

use vstd::prelude::*;
use vstd::string::StringExecFns;
use vstd::utf8::encode_utf8;

use crate::config::{
    accepted, findings, uses_remotes, valid_rules, validate, Config, ConfigView, RawConfig,
    RawConfigView, Rule, RuleView,
};
use crate::file_io::optional_bytes;
use crate::git::RemoteRuleSupport;
use crate::identity::{
    optional_entry, optional_identity, ConfigEntry, EffectiveIdentity, EntryView, IdentityView,
};
use crate::number::{decimal, write_decimal};
use crate::paths::{config_file, Layout, LayoutView};
use crate::profiles::ProfileView;
use crate::render::{compile, conditions, conditions_of, tree_of, Compiled, CompiledView};
use crate::run_status::{worse, RunStatus};
use crate::sorted_map::{lookup, put, SortedMap};
use crate::status::{
    add_line, one_source, origin_display, same_origin, source_text, Report, ReportView,
};
use crate::text::{
    copy_texts, debug, debug_text, join, joined, lossy_text, optional_text, same_bytes, same_text,
    strip_suffix, texts, without_suffix,
};

verus! {

/// Collects report lines and the worst status seen. Checks push findings and
/// carry on, so one run lists everything that is wrong rather than the first
/// thing.
#[derive(Debug)]
pub struct Doctor {
    pub lines: Vec<String>,
    pub status: RunStatus,
}

impl View for Doctor {
    type V = ReportView;

    open spec fn view(&self) -> ReportView {
        ReportView { lines: texts(self.lines@), status: self.status }
    }
}

/// The report before anything is checked.
pub open spec fn blank() -> ReportView {
    ReportView { lines: seq![], status: RunStatus::Clean }
}

/// A report with one more thing that is as it should be.
pub open spec fn with_ok(report: ReportView, message: Seq<char>) -> ReportView {
    ReportView { lines: report.lines.push("ok: "@ + message), ..report }
}

/// A report with one more thing worth knowing.
pub open spec fn with_note(report: ReportView, message: Seq<char>) -> ReportView {
    ReportView { lines: report.lines.push("note: "@ + message), ..report }
}

/// A report with one more thing that needs attention.
pub open spec fn with_issue(report: ReportView, message: Seq<char>) -> ReportView {
    ReportView {
        lines: report.lines.push("issue: "@ + message),
        status: worse(report.status, RunStatus::Issues),
    }
}

/// A report with each of `messages` as an issue.
pub open spec fn with_issues(report: ReportView, messages: Seq<Seq<char>>) -> ReportView
    decreases messages.len(),
{
    if messages.len() == 0 {
        report
    } else {
        with_issue(with_issues(report, messages.drop_last()), messages.last())
    }
}

impl Doctor {
    /// A report without lines.
    pub fn new() -> (result: Self)
        ensures
            result@ == blank(),
    {
        let result = Doctor { lines: Vec::new(), status: RunStatus::Clean };
        assert(texts(result.lines@) == Seq::<Seq<char>>::empty());
        result
    }

    /// Everything is as it should be.
    pub fn ok(&mut self, message: &str)
        ensures
            final(self)@ == with_ok(old(self)@, message@),
    {
        self.lines.push("ok: ".to_owned().concat(message));
        assert(texts(self.lines@) == texts(old(self).lines@).push("ok: "@ + message@));
    }

    /// Worth knowing, not worth a nonzero exit.
    pub fn note(&mut self, message: &str)
        ensures
            final(self)@ == with_note(old(self)@, message@),
    {
        self.lines.push("note: ".to_owned().concat(message));
        assert(texts(self.lines@) == texts(old(self).lines@).push("note: "@ + message@));
    }

    /// Something needs attention.
    pub fn issue(&mut self, message: &str)
        ensures
            final(self)@ == with_issue(old(self)@, message@),
    {
        self.lines.push("issue: ".to_owned().concat(message));
        self.status = self.status.combine(RunStatus::Issues);
        assert(texts(self.lines@) == texts(old(self).lines@).push("issue: "@ + message@));
    }

    /// Each of several things needs attention.
    pub fn issues(&mut self, messages: &Vec<String>)
        ensures
            final(self)@ == with_issues(old(self)@, texts(messages@)),
    {
        let ghost all = texts(messages@);
        let ghost before = self@;
        let mut i: usize = 0;
        assert(all.take(0).len() == 0);
        while i < messages.len()
            invariant
                i <= messages@.len(),
                all == texts(messages@),
                self@ == with_issues(before, all.take(i as int)),
            decreases messages@.len() - i,
        {
            proof {
                let longer = all.take(i + 1);
                assert(longer.drop_last() == all.take(i as int));
                assert(longer.last() == messages@[i as int]@);
            }
            self.issue(messages[i].as_str());
            i = i + 1;
        }
        assert(all.take(i as int) == all);
    }
}

////////////////////////////////////////////////////////////////////////////
// The configuration

/// What became of reading the configuration file.
#[derive(Debug)]
pub enum ConfigSource {
    /// There is no file.
    Missing,
    /// It cannot be read or parsed, for the given reason.
    Unreadable(String),
    /// What it says.
    Read(RawConfig),
}

/// A problem with the configuration file, with what fixes it.
pub open spec fn to_edit(problem: Seq<char>) -> Seq<char> {
    problem + "; edit config.toml, then run cloakroom apply"@
}

/// A problem with the configuration file, with what fixes it.
fn advise_edit(problem: &str) -> (result: String)
    ensures
        result@ == to_edit(problem@),
{
    problem.to_owned().concat("; edit config.toml, then run cloakroom apply")
}

/// The findings of validation, each with what fixes it.
pub open spec fn all_to_edit(list: Seq<Seq<char>>) -> Seq<Seq<char>> {
    list.map_values(|finding: Seq<char>| to_edit(finding))
}

/// The findings of validation, each with what fixes it.
fn advise_edits(list: &Vec<String>) -> (result: Vec<String>)
    ensures
        texts(result@) == all_to_edit(texts(list@)),
{
    let ghost wanted = all_to_edit(texts(list@));
    let mut result: Vec<String> = Vec::new();
    let mut i: usize = 0;
    while i < list.len()
        invariant
            i <= list@.len(),
            wanted == all_to_edit(texts(list@)),
            texts(result@) == wanted.take(i as int),
        decreases list@.len() - i,
    {
        let ghost earlier = result@;
        let advised = advise_edit(list[i].as_str());
        result.push(advised);
        i = i + 1;
        assert(texts(result@) == texts(earlier).push(advised@));
        assert(wanted.take(i as int) == wanted.take(i - 1).push(advised@));
    }
    assert(wanted.take(i as int) == wanted);
    result
}

/// Whether some rule selects the profile `key`.
pub open spec fn selected_by_some(rules: Seq<RuleView>, key: Seq<char>) -> bool {
    exists|i: int| 0 <= i < rules.len() && (#[trigger] rules[i]).profile == key
}

/// A report with a note for each profile that no rule selects.
pub open spec fn with_unused(
    report: ReportView,
    profiles: Seq<(Seq<char>, ProfileView)>,
    rules: Seq<RuleView>,
) -> ReportView
    decreases profiles.len(),
{
    if profiles.len() == 0 {
        report
    } else {
        let key = profiles.last().0;
        let earlier = with_unused(report, profiles.drop_last(), rules);
        if selected_by_some(rules, key) {
            earlier
        } else {
            with_note(
                earlier,
                "profile "@ + key + " has no rules; nothing selects it automatically"@,
            )
        }
    }
}

/// The profiles that one condition selects, in the order of the rules.
#[derive(Debug)]
pub struct Selection {
    pub profiles: Vec<String>,
}

impl View for Selection {
    type V = Seq<Seq<char>>;

    open spec fn view(&self) -> Seq<Seq<char>> {
        texts(self.profiles@)
    }
}

/// The profiles already known to be selected by `condition`.
pub open spec fn so_far(
    selections: Seq<(Seq<char>, Seq<Seq<char>>)>,
    condition: Seq<char>,
) -> Seq<Seq<char>> {
    match lookup(selections, condition) {
        Some(profiles) => profiles,
        None => seq![],
    }
}

/// `selections` once `condition` selects `profile` as well.
pub open spec fn with_selection(
    selections: Seq<(Seq<char>, Seq<Seq<char>>)>,
    condition: Seq<char>,
    profile: Seq<char>,
) -> Seq<(Seq<char>, Seq<Seq<char>>)> {
    put(selections, condition, so_far(selections, condition).push(profile))
}

/// `selections` once each of `list` selects `profile` as well.
pub open spec fn with_selections(
    selections: Seq<(Seq<char>, Seq<Seq<char>>)>,
    list: Seq<Seq<char>>,
    profile: Seq<char>,
) -> Seq<(Seq<char>, Seq<Seq<char>>)>
    decreases list.len(),
{
    if list.len() == 0 {
        selections
    } else {
        with_selection(with_selections(selections, list.drop_last(), profile), list.last(), profile)
    }
}

/// What each condition selects, by condition. Keyed on the compiled condition,
/// which is what git compares too, so gitdir and gitdir/i over one path count
/// as the two different conditions they are.
pub open spec fn selections_of(rules: Seq<RuleView>) -> Seq<(Seq<char>, Seq<Seq<char>>)>
    decreases rules.len(),
{
    if rules.len() == 0 {
        seq![]
    } else {
        with_selections(
            selections_of(rules.drop_last()),
            conditions_of(rules.last()),
            rules.last().profile,
        )
    }
}

/// Whether a condition selects more than one profile.
pub open spec fn conflicting(profiles: Seq<Seq<char>>) -> bool {
    exists|i: int| 0 <= i < profiles.len() && #[trigger] profiles[i] != profiles[0]
}

/// The issue that a condition selects several profiles.
pub open spec fn conflict_message(condition: Seq<char>, profiles: Seq<Seq<char>>) -> Seq<char> {
    to_edit(
        "condition "@ + debug_text(condition) + " selects profiles "@ + joined(profiles, ", "@)
            + "; git applies the last one and the others are dead"@,
    )
}

/// A report with an issue for each condition that selects several profiles.
pub open spec fn with_conflicts(
    report: ReportView,
    selections: Seq<(Seq<char>, Seq<Seq<char>>)>,
) -> ReportView
    decreases selections.len(),
{
    if selections.len() == 0 {
        report
    } else {
        let earlier = with_conflicts(report, selections.drop_last());
        if conflicting(selections.last().1) {
            with_issue(earlier, conflict_message(selections.last().0, selections.last().1))
        } else {
            earlier
        }
    }
}

/// A report on a valid configuration.
pub open spec fn with_valid_config(report: ReportView, config: ConfigView) -> ReportView {
    with_conflicts(
        with_unused(
            with_ok(report, "config.toml parses and validates"@),
            config.profiles,
            config.rules,
        ),
        selections_of(config.rules),
    )
}

/// A report on the configuration that is not there.
pub open spec fn with_missing_config(report: ReportView, layout: LayoutView) -> ReportView {
    with_issue(
        report,
        "no config at "@ + lossy_text(config_file(layout.config_dir)) + "; run cloakroom init"@,
    )
}

/// A report on a configuration that was read.
pub open spec fn with_config(report: ReportView, config: RawConfigView) -> ReportView {
    if findings(config).len() > 0 {
        with_issues(report, all_to_edit(findings(config)))
    } else {
        with_valid_config(report, accepted(config))
    }
}

/// A report on what became of reading the configuration file.
pub open spec fn with_source(report: ReportView, layout: LayoutView, source: ConfigSource)
    -> ReportView {
    match source {
        ConfigSource::Missing => with_missing_config(report, layout),
        ConfigSource::Unreadable(reason) => with_issue(report, to_edit(reason@)),
        ConfigSource::Read(config) => with_config(report, config@),
    }
}

/// The configuration to work with, where there is a valid one.
pub open spec fn trusted_config(source: ConfigSource) -> Option<ConfigView> {
    match source {
        ConfigSource::Read(config) => if findings(config@).len() > 0 {
            None
        } else {
            Some(accepted(config@))
        },
        _ => None,
    }
}

/// Decides `selected_by_some`.
fn is_selected(rules: &Vec<Rule>, key: &str) -> (result: bool)
    ensures
        result == selected_by_some(valid_rules(rules@), key@),
{
    let ghost all = valid_rules(rules@);
    let mut i: usize = 0;
    while i < rules.len()
        invariant
            i <= rules@.len(),
            all == valid_rules(rules@),
            forall|k: int| 0 <= k < i ==> (#[trigger] all[k]).profile != key@,
        decreases rules@.len() - i,
    {
        assert(all[i as int] == rules@[i as int]@);
        if same_text(rules[i].profile.as_str(), key) {
            return true;
        }
        i = i + 1;
    }
    false
}

/// Notes the profiles that no rule selects.
fn note_unused(doctor: &mut Doctor, config: &Config)
    ensures
        final(doctor)@ == with_unused(old(doctor)@, config@.profiles, config@.rules),
{
    let ghost all = config@.profiles;
    let ghost before = doctor@;
    let mut i: usize = 0;
    assert(all.take(0).len() == 0);
    while i < config.profiles.len()
        invariant
            all == config@.profiles,
            i <= all.len(),
            doctor@ == with_unused(before, all.take(i as int), config@.rules),
        decreases all.len() - i,
    {
        proof {
            let longer = all.take(i + 1);
            assert(longer.drop_last() == all.take(i as int));
            assert(longer.last() == all[i as int]);
        }
        let key = config.profiles.key_at(i);
        if !is_selected(&config.rules, key.as_str()) {
            doctor.note(
                "profile ".to_owned().concat(key.as_str()).concat(
                    " has no rules; nothing selects it automatically",
                ).as_str(),
            );
        }
        i = i + 1;
    }
    assert(all.take(i as int) == all);
}

/// Counts `profile` among those that `condition` selects.
fn select(selections: &mut SortedMap<Selection>, condition: String, profile: &str)
    ensures
        final(selections)@ == with_selection(old(selections)@, condition@, profile@),
{
    let mut profiles = match selections.get(condition.as_str()) {
        Some(selection) => copy_texts(&selection.profiles),
        None => Vec::new(),
    };
    assert(texts(profiles@) == so_far(selections@, condition@));
    let ghost known = profiles@;
    profiles.push(profile.to_owned());
    assert(texts(profiles@) == texts(known).push(profile@));
    selections.insert(condition, Selection { profiles });
}

/// Collects what each condition selects.
fn collect_selections(rules: &Vec<Rule>) -> (result: SortedMap<Selection>)
    ensures
        result@ == selections_of(valid_rules(rules@)),
{
    let ghost all = valid_rules(rules@);
    let mut result: SortedMap<Selection> = SortedMap::new();
    let mut i: usize = 0;
    assert(all.take(0).len() == 0);
    while i < rules.len()
        invariant
            i <= rules@.len(),
            all == valid_rules(rules@),
            result@ == selections_of(all.take(i as int)),
        decreases rules@.len() - i,
    {
        let rule = &rules[i];
        proof {
            let longer = all.take(i + 1);
            assert(longer.drop_last() == all.take(i as int));
            assert(longer.last() == rule@);
        }
        let ghost earlier = result@;
        let list = conditions(rule);
        let ghost wanted = texts(list@);
        let mut j: usize = 0;
        assert(wanted.take(0).len() == 0);
        while j < list.len()
            invariant
                j <= list@.len(),
                wanted == texts(list@),
                result@ == with_selections(earlier, wanted.take(j as int), rule@.profile),
            decreases list@.len() - j,
        {
            proof {
                let longer = wanted.take(j + 1);
                assert(longer.drop_last() == wanted.take(j as int));
                assert(longer.last() == list@[j as int]@);
            }
            select(&mut result, list[j].clone(), rule.profile.as_str());
            j = j + 1;
        }
        assert(wanted.take(j as int) == wanted);
        i = i + 1;
    }
    assert(all.take(i as int) == all);
    result
}

/// Decides `conflicting`.
fn is_conflict(profiles: &Vec<String>) -> (result: bool)
    ensures
        result == conflicting(texts(profiles@)),
{
    let ghost all = texts(profiles@);
    let mut i: usize = 0;
    while i < profiles.len()
        invariant
            i <= profiles@.len(),
            all == texts(profiles@),
            forall|k: int| 0 <= k < i ==> #[trigger] all[k] == all[0],
        decreases profiles@.len() - i,
    {
        assert(all[i as int] == profiles@[i as int]@);
        assert(all[0] == profiles@[0]@);
        if !same_text(profiles[i].as_str(), profiles[0].as_str()) {
            return true;
        }
        i = i + 1;
    }
    false
}

/// Reports the conditions that select several profiles: legal, but only the
/// last include wins, so the earlier rules are dead.
fn report_conflicts(doctor: &mut Doctor, selections: &SortedMap<Selection>)
    ensures
        final(doctor)@ == with_conflicts(old(doctor)@, selections@),
{
    let ghost all = selections@;
    let ghost before = doctor@;
    let mut i: usize = 0;
    assert(all.take(0).len() == 0);
    while i < selections.len()
        invariant
            all == selections@,
            i <= all.len(),
            doctor@ == with_conflicts(before, all.take(i as int)),
        decreases all.len() - i,
    {
        proof {
            let longer = all.take(i + 1);
            assert(longer.drop_last() == all.take(i as int));
            assert(longer.last() == all[i as int]);
        }
        let condition = selections.key_at(i);
        let selection = selections.value_at(i);
        if is_conflict(&selection.profiles) {
            let problem = "condition ".to_owned().concat(debug(condition.as_str()).as_str()).concat(
                " selects profiles ",
            ).concat(join(&selection.profiles, ", ").as_str()).concat(
                "; git applies the last one and the others are dead",
            );
            doctor.issue(advise_edit(problem.as_str()).as_str());
        }
        i = i + 1;
    }
    assert(all.take(i as int) == all);
}

/// The configuration a check yields, if any.
pub open spec fn optional_config(config: Option<Config>) -> Option<ConfigView> {
    match config {
        Some(config) => Some(config@),
        None => None,
    }
}

/// Returns the config only when it parses and validates; later checks that
/// depend on a trustworthy config are skipped otherwise.
pub fn check_config(doctor: &mut Doctor, layout: &Layout, source: ConfigSource) -> (result: Option<
    Config,
>)
    ensures
        final(doctor)@ == with_source(old(doctor)@, layout@, source),
        optional_config(result) == trusted_config(source),
{
    match source {
        ConfigSource::Missing => {
            doctor.issue(
                "no config at ".to_owned().concat(layout.config_file().display().as_str()).concat(
                    "; run cloakroom init",
                ).as_str(),
            );
            None
        },
        ConfigSource::Unreadable(reason) => {
            doctor.issue(advise_edit(reason.as_str()).as_str());
            None
        },
        ConfigSource::Read(raw) => match validate(raw) {
            Err(list) => {
                doctor.issues(&advise_edits(&list));
                None
            },
            Ok(config) => {
                doctor.ok("config.toml parses and validates");
                note_unused(doctor, &config);
                let selections = collect_selections(&config.rules);
                report_conflicts(doctor, &selections);
                Some(config)
            },
        },
    }
}

////////////////////////////////////////////////////////////////////////////
// The generated files

/// What the generated tree on disk holds, as far as it could be read.
#[derive(Debug)]
pub struct TreeOnDisk {
    /// The root, if it can be read.
    pub root: Option<Vec<u8>>,
    /// The objects that should be there, in the order of their digests, each
    /// if it can be read.
    pub objects: Vec<Option<Vec<u8>>>,
    /// The names in the directory of the objects, as the directory lists
    /// them; None for a name that is not UTF-8. Empty when the directory
    /// cannot be listed.
    pub names: Vec<Option<String>>,
}

/// The bytes of the object at position `index`, if it can be read.
pub open spec fn object_on_disk(tree: TreeOnDisk, index: int) -> Option<Seq<u8>> {
    if 0 <= index < tree.objects@.len() {
        optional_bytes(tree.objects@[index])
    } else {
        None
    }
}

/// What is wrong with one generated file. Byte equality is the whole test.
pub open spec fn file_issues(name: Seq<char>, expected: Seq<char>, actual: Option<Seq<u8>>) -> Seq<
    Seq<char>,
> {
    match actual {
        Some(bytes) => if bytes == encode_utf8(expected) {
            seq![]
        } else {
            seq![name + " is stale; run cloakroom apply"@]
        },
        None => seq![name + " is missing; run cloakroom apply"@],
    }
}

/// How reports name an object.
pub open spec fn object_label(digest: Seq<char>) -> Seq<char> {
    "generated/objects/"@ + digest + ".gitconfig"@
}

/// What is wrong with the first `count` objects.
pub open spec fn objects_issues(
    objects: Seq<(Seq<char>, Seq<char>)>,
    tree: TreeOnDisk,
    count: nat,
) -> Seq<Seq<char>>
    decreases count,
{
    if count == 0 {
        seq![]
    } else {
        objects_issues(objects, tree, (count - 1) as nat) + file_issues(
            object_label(objects[count - 1].0),
            objects[count - 1].1,
            object_on_disk(tree, count - 1),
        )
    }
}

/// Whether a name in the directory is that of an object which the
/// configuration does not call for. Other files are no concern.
pub open spec fn orphan(objects: Seq<(Seq<char>, Seq<char>)>, name: Option<Seq<char>>) -> bool {
    match name {
        Some(name) => match without_suffix(name, ".gitconfig"@) {
            Some(digest) => lookup(objects, digest) is None,
            None => false,
        },
        None => false,
    }
}

/// The issues of the first `count` names in the directory.
pub open spec fn orphan_issues(
    objects: Seq<(Seq<char>, Seq<char>)>,
    names: Seq<Option<String>>,
    count: nat,
) -> Seq<Seq<char>>
    decreases count,
{
    if count == 0 {
        seq![]
    } else {
        let name = optional_text(names[count - 1]);
        let earlier = orphan_issues(objects, names, (count - 1) as nat);
        if orphan(objects, name) {
            earlier.push(
                "generated/objects/"@ + name->0
                    + " is not in the current manifest; run cloakroom apply"@,
            )
        } else {
            earlier
        }
    }
}

/// Everything wrong with the tree on disk.
pub open spec fn tree_issues(compiled: CompiledView, tree: TreeOnDisk) -> Seq<Seq<char>> {
    file_issues("generated/root.gitconfig"@, compiled.root, optional_bytes(tree.root))
        + objects_issues(compiled.objects, tree, compiled.objects.len()) + orphan_issues(
        compiled.objects,
        tree.names@,
        tree.names@.len(),
    )
}

/// A report on the tree on disk: one line only if nothing is stale, missing,
/// or orphaned.
pub open spec fn with_tree(report: ReportView, compiled: CompiledView, tree: TreeOnDisk)
    -> ReportView {
    if tree_issues(compiled, tree).len() == 0 {
        with_ok(report, "generated files match the configuration"@)
    } else {
        with_issues(report, tree_issues(compiled, tree))
    }
}

/// Adds what is wrong with one generated file.
fn check_file(list: &mut Vec<String>, name: &str, expected: &str, actual: &Option<Vec<u8>>)
    ensures
        texts(final(list)@) == texts(old(list)@) + file_issues(
            name@,
            expected@,
            optional_bytes(*actual),
        ),
{
    match actual {
        Some(bytes) => {
            if !same_bytes(bytes.as_slice(), expected.as_bytes()) {
                add_line(list, name.to_owned().concat(" is stale; run cloakroom apply"));
            }
        },
        None => {
            add_line(list, name.to_owned().concat(" is missing; run cloakroom apply"));
        },
    }
    assert(texts(list@) == texts(old(list)@) + file_issues(
        name@,
        expected@,
        optional_bytes(*actual),
    ));
}

/// Decides `orphan`.
fn is_orphan(objects: &SortedMap<String>, name: &Option<String>) -> (result: bool)
    ensures
        result == orphan(objects@, optional_text(*name)),
{
    match name {
        Some(name) => match strip_suffix(name.as_str(), ".gitconfig") {
            Some(digest) => !objects.contains_key(digest),
            None => false,
        },
        None => false,
    }
}

/// Lists everything wrong with the tree on disk.
fn list_tree_issues(compiled: &Compiled, tree: &TreeOnDisk) -> (result: Vec<String>)
    ensures
        texts(result@) == tree_issues(compiled@, *tree),
{
    let mut list: Vec<String> = Vec::new();
    check_file(&mut list, "generated/root.gitconfig", compiled.root.as_str(), &tree.root);
    let ghost head = texts(list@);
    assert(head == file_issues(
        "generated/root.gitconfig"@,
        compiled@.root,
        optional_bytes(tree.root),
    ));
    let mut i: usize = 0;
    assert(head + objects_issues(compiled@.objects, *tree, 0) == head);
    while i < compiled.objects.len()
        invariant
            i <= compiled@.objects.len(),
            texts(list@) == head + objects_issues(compiled@.objects, *tree, i as nat),
        decreases compiled@.objects.len() - i,
    {
        let label = "generated/objects/".to_owned().concat(
            compiled.objects.key_at(i).as_str(),
        ).concat(".gitconfig");
        let absent: Option<Vec<u8>> = None;
        let actual = if i < tree.objects.len() {
            &tree.objects[i]
        } else {
            &absent
        };
        assert(optional_bytes(*actual) == object_on_disk(*tree, i as int));
        check_file(&mut list, label.as_str(), compiled.objects.value_at(i).as_str(), actual);
        i = i + 1;
        assert(texts(list@) == head + objects_issues(compiled@.objects, *tree, i as nat));
    }
    let ghost files = texts(list@);
    let mut j: usize = 0;
    assert(files + orphan_issues(compiled@.objects, tree.names@, 0) == files);
    while j < tree.names.len()
        invariant
            j <= tree.names@.len(),
            texts(list@) == files + orphan_issues(compiled@.objects, tree.names@, j as nat),
        decreases tree.names@.len() - j,
    {
        let name = &tree.names[j];
        if is_orphan(&compiled.objects, name) {
            if let Some(text) = name {
                add_line(
                    &mut list,
                    "generated/objects/".to_owned().concat(text.as_str()).concat(
                        " is not in the current manifest; run cloakroom apply",
                    ),
                );
            }
        }
        j = j + 1;
        assert(texts(list@) == files + orphan_issues(compiled@.objects, tree.names@, j as nat));
    }
    list
}

/// Compares the tree on disk against a fresh compile. It catches a hand edit,
/// a half-finished apply, and a config changed since the last one, without
/// needing to tell them apart.
///
/// An object outside the manifest is not merely clutter. It is a gitconfig
/// with a `[user]` block that some old root may still include, so it is
/// reported rather than ignored.
pub fn check_generated(doctor: &mut Doctor, compiled: &Compiled, tree: &TreeOnDisk)
    ensures
        final(doctor)@ == with_tree(old(doctor)@, compiled@, *tree),
{
    let list = list_tree_issues(compiled, tree);
    assert(texts(list@).len() == list@.len());
    if list.len() == 0 {
        doctor.ok("generated files match the configuration");
    } else {
        doctor.issues(&list);
    }
}

////////////////////////////////////////////////////////////////////////////
// The managed include and the version of git

/// A report on how many global includes lead to the root: exactly one, no
/// more and no less.
pub open spec fn with_include_count(report: ReportView, layout: LayoutView, count: nat)
    -> ReportView {
    if count == 0 {
        with_issue(
            report,
            "global gitconfig does not include "@ + layout.include_path + "; run cloakroom init"@,
        )
    } else if count == 1 {
        with_ok(report, "global gitconfig includes the generated root"@)
    } else {
        with_issue(
            report,
            "global gitconfig includes the generated root "@ + decimal(count)
                + " times; remove duplicate include.path entries: run git config --global --edit"@,
        )
    }
}

/// Zero means git never reads any of this. Duplicates are harmless to git but
/// mean the global gitconfig was edited by hand, and the user should decide
/// which line to keep.
pub fn check_include(doctor: &mut Doctor, layout: &Layout, count: usize)
    ensures
        final(doctor)@ == with_include_count(old(doctor)@, layout@, count as nat),
{
    if count == 0 {
        doctor.issue(
            "global gitconfig does not include ".to_owned().concat(
                layout.include_path.as_str(),
            ).concat("; run cloakroom init").as_str(),
        );
    } else if count == 1 {
        doctor.ok("global gitconfig includes the generated root");
    } else {
        doctor.issue(
            "global gitconfig includes the generated root ".to_owned().concat(
                write_decimal(count as u64).as_str(),
            ).concat(
                " times; remove duplicate include.path entries: run git config --global --edit",
            ).as_str(),
        );
    }
}

/// A problem with the version of git, with what fixes it.
pub open spec fn to_upgrade(problem: Seq<char>) -> Seq<char> {
    problem + "; upgrade git, then run cloakroom apply"@
}

/// A problem with the version of git, with what fixes it.
fn advise_upgrade(problem: &str) -> (result: String)
    ensures
        result@ == to_upgrade(problem@),
{
    problem.to_owned().concat("; upgrade git, then run cloakroom apply")
}

/// A report on whether git supports the remote rules.
pub open spec fn with_support(report: ReportView, support: RemoteRuleSupport) -> ReportView {
    match support {
        RemoteRuleSupport::TooOld(major, minor) => with_issue(
            report,
            to_upgrade(
                "git "@ + decimal(major as nat) + "."@ + decimal(minor as nat)
                    + " does not support hasconfig conditions; remote rules need git 2.36 or newer"@,
            ),
        ),
        RemoteRuleSupport::Supported => with_ok(
            report,
            "git is new enough for hasconfig remote rules"@,
        ),
        RemoteRuleSupport::Unknown => with_issue(
            report,
            to_upgrade("could not parse the git version; remote rules need Git 2.36 or newer"@),
        ),
    }
}

/// Whether a configuration has remote rules.
pub open spec fn asks_for_remotes(config: Option<ConfigView>) -> bool {
    config is Some && uses_remotes(config->0)
}

/// Only asked when the config actually uses remote rules. Path rules work on
/// any git with conditional includes, and reporting a version that does not
/// matter would be noise.
pub fn check_git_version(
    doctor: &mut Doctor,
    config: &Option<Config>,
    support: RemoteRuleSupport,
)
    ensures
        final(doctor)@ == (if asks_for_remotes(optional_config(*config)) {
            with_support(old(doctor)@, support)
        } else {
            old(doctor)@
        }),
{
    let uses_remotes = match config {
        Some(config) => config.uses_remote_rules(),
        None => false,
    };
    if !uses_remotes {
        return ;
    }
    match support {
        RemoteRuleSupport::TooOld(major, minor) => {
            let problem = "git ".to_owned().concat(write_decimal(major as u64).as_str()).concat(
                ".",
            ).concat(write_decimal(minor as u64).as_str()).concat(
                " does not support hasconfig conditions; remote rules need git 2.36 or newer",
            );
            doctor.issue(advise_upgrade(problem.as_str()).as_str());
        },
        RemoteRuleSupport::Supported => doctor.ok("git is new enough for hasconfig remote rules"),
        RemoteRuleSupport::Unknown => doctor.issue(
            advise_upgrade(
                "could not parse the git version; remote rules need Git 2.36 or newer",
            ).as_str(),
        ),
    }
}

////////////////////////////////////////////////////////////////////////////
// The identity

/// Whether a value is what the profile sets, from where the marker came.
/// Value and origin both have to agree: a repository that sets the same
/// string the profile does is still an override.
pub open spec fn agrees(value: EntryView, expected: Seq<char>, marker: EntryView) -> bool {
    value.value == expected && one_source(value, marker)
}

/// Whether a value is unset or agrees.
pub open spec fn unset_or_agrees(
    value: Option<EntryView>,
    expected: Seq<char>,
    marker: EntryView,
) -> bool {
    value is None || agrees(value->0, expected, marker)
}

/// How to get rid of a value of `key` that does not belong there.
pub open spec fn to_remove(entry: EntryView, key: Seq<char>) -> Seq<char> {
    match entry.origin {
        Some(path) => "; run git config --file "@ + path + " --unset-all "@ + key,
        None => "; drop it from the command line or the environment, then run cloakroom doctor"@,
    }
}

/// How to get rid of a value that does not belong there.
fn advise_removal(entry: &ConfigEntry, key: &str) -> (result: String)
    ensures
        result@ == to_remove(entry@, key@),
{
    match &entry.origin {
        Some(path) => "; run git config --file ".to_owned().concat(path.as_str()).concat(
            " --unset-all ",
        ).concat(key),
        None => "; drop it from the command line or the environment, then run cloakroom doctor".to_owned(),
    }
}

/// How to make a value agree: a generated file is generated anew, an override
/// is removed.
pub open spec fn to_agree(entry: EntryView, key: Seq<char>, marker: EntryView) -> Seq<char> {
    if one_source(entry, marker) {
        "; run cloakroom apply"@
    } else {
        to_remove(entry, key)
    }
}

/// A report with the issue that a value does not agree, if it is set.
pub open spec fn with_value(
    report: ReportView,
    key: Seq<char>,
    value: Option<EntryView>,
    expected: Seq<char>,
    marker: EntryView,
) -> ReportView {
    if unset_or_agrees(value, expected, marker) {
        report
    } else {
        let entry = value->0;
        with_issue(
            report,
            key + " is "@ + debug_text(entry.value) + " from "@ + source_text(entry) + " (scope "@
                + entry.scope + "), but cloakroom profile "@ + marker.value + " sets "@
                + debug_text(expected) + to_agree(entry, key, marker),
        )
    }
}

/// A report on an identity that a genuine marker goes with, against the
/// profile it names.
pub open spec fn with_expected(
    report: ReportView,
    identity: IdentityView,
    marker: EntryView,
    expected: ProfileView,
) -> ReportView {
    let compared = with_value(
        with_value(report, "user.name"@, identity.name, expected.name, marker),
        "user.email"@,
        identity.email,
        expected.email,
        marker,
    );
    if identity.name is Some && identity.email is Some && agrees(
        identity.name->0,
        expected.name,
        marker,
    ) && agrees(identity.email->0, expected.email, marker) {
        with_ok(compared, "the identity in this repository matches cloakroom's rules"@)
    } else {
        compared
    }
}

/// A report on a marker.
pub open spec fn with_marker(
    report: ReportView,
    identity: IdentityView,
    marker: EntryView,
    marker_is_generated: bool,
    config: Option<ConfigView>,
) -> ReportView {
    if !marker_is_generated {
        with_issue(
            report,
            "cloakroom profile marker "@ + debug_text(marker.value) + " comes from "@
                + source_text(marker) + " (scope "@ + marker.scope + "), not a generated object"@
                + to_remove(marker, "cloakroom.profile"@),
        )
    } else {
        match config {
            Some(config) => match lookup(config.profiles, marker.value) {
                Some(expected) => with_expected(report, identity, marker, expected),
                None => with_issue(
                    report,
                    "cloakroom profile marker "@ + debug_text(marker.value)
                        + " is not in config.toml; run cloakroom apply"@,
                ),
            },
            None => report,
        }
    }
}

/// A report with the issues of an incomplete identity.
pub open spec fn with_unset(report: ReportView, identity: IdentityView) -> ReportView {
    let named = if identity.name is None {
        with_issue(
            report,
            "no user.name resolves in this repository; run git config user.name <name>"@,
        )
    } else {
        report
    };
    if identity.email is None {
        with_issue(
            named,
            "no user.email resolves in this repository; git will refuse to commit; run git config user.email <email>"@,
        )
    } else {
        named
    }
}

/// A report on the identity in a repository; None stands for no repository.
pub open spec fn with_identity(
    report: ReportView,
    identity: Option<IdentityView>,
    marker_is_generated: bool,
    config: Option<ConfigView>,
) -> ReportView {
    match identity {
        None => with_note(report, "not inside a git repository; identity checks skipped"@),
        Some(identity) => {
            let complete = with_unset(report, identity);
            match identity.profile {
                Some(marker) => with_marker(
                    complete,
                    identity,
                    marker,
                    marker_is_generated,
                    config,
                ),
                None => if identity.name is Some && identity.email is Some {
                    with_ok(
                        complete,
                        "no cloakroom rule matches this repository; the identity comes from elsewhere"@,
                    )
                } else {
                    complete
                },
            }
        },
    }
}

/// Compares one value with what the profile sets. Reports whether it is unset
/// or agrees.
fn check_value(
    doctor: &mut Doctor,
    key: &str,
    value: &Option<ConfigEntry>,
    expected: &str,
    marker: &ConfigEntry,
) -> (result: bool)
    ensures
        final(doctor)@ == with_value(
            old(doctor)@,
            key@,
            optional_entry(*value),
            expected@,
            marker@,
        ),
        result == unset_or_agrees(optional_entry(*value), expected@, marker@),
{
    match value {
        Some(entry) => {
            if same_text(entry.value.as_str(), expected) && same_origin(entry, marker) {
                return true;
            }
            let fix = if same_origin(entry, marker) {
                "; run cloakroom apply".to_owned()
            } else {
                advise_removal(entry, key)
            };
            doctor.issue(
                key.to_owned().concat(" is ").concat(debug(entry.value.as_str()).as_str()).concat(
                    " from ",
                ).concat(origin_display(entry).as_str()).concat(" (scope ").concat(
                    entry.scope.as_str(),
                ).concat("), but cloakroom profile ").concat(marker.value.as_str()).concat(
                    " sets ",
                ).concat(debug(expected).as_str()).concat(fix.as_str()).as_str(),
            );
            false
        },
        None => true,
    }
}

/// Checks the marker and, where it is genuine and there is a config, the
/// identity against the profile it names.
fn check_marker(
    doctor: &mut Doctor,
    identity: &EffectiveIdentity,
    marker: &ConfigEntry,
    marker_is_generated: bool,
    config: &Option<Config>,
)
    ensures
        final(doctor)@ == with_marker(
            old(doctor)@,
            identity@,
            marker@,
            marker_is_generated,
            optional_config(*config),
        ),
{
    if !marker_is_generated {
        doctor.issue(
            "cloakroom profile marker ".to_owned().concat(
                debug(marker.value.as_str()).as_str(),
            ).concat(" comes from ").concat(origin_display(marker).as_str()).concat(
                " (scope ",
            ).concat(marker.scope.as_str()).concat("), not a generated object").concat(
                advise_removal(marker, "cloakroom.profile").as_str(),
            ).as_str(),
        );
        return ;
    }
    // Without a config there is nothing to compare with, and the check of the
    // config has said why.
    if let Some(config) = config {
        match config.profiles.get(marker.value.as_str()) {
            Some(expected) => {
                let name = check_value(
                    doctor,
                    "user.name",
                    &identity.name,
                    expected.name.as_str(),
                    marker,
                );
                let email = check_value(
                    doctor,
                    "user.email",
                    &identity.email,
                    expected.email.as_str(),
                    marker,
                );
                if name && email && identity.name.is_some() && identity.email.is_some() {
                    doctor.ok("the identity in this repository matches cloakroom's rules");
                }
            },
            None => doctor.issue(
                "cloakroom profile marker ".to_owned().concat(
                    debug(marker.value.as_str()).as_str(),
                ).concat(" is not in config.toml; run cloakroom apply").as_str(),
            ),
        }
    }
}

/// The end-to-end check: what git resolves in this repository against what
/// the config says it should be.
///
/// It runs even when the config did not validate, because a broken config
/// does not stop the previously generated files from selecting an identity,
/// and that identity is what the user commits with today. `identity` is None
/// outside a repository.
pub fn check_identity(
    doctor: &mut Doctor,
    identity: &Option<EffectiveIdentity>,
    marker_is_generated: bool,
    config: &Option<Config>,
)
    ensures
        final(doctor)@ == with_identity(
            old(doctor)@,
            optional_identity(*identity),
            marker_is_generated,
            optional_config(*config),
        ),
{
    match identity {
        None => doctor.note("not inside a git repository; identity checks skipped"),
        Some(identity) => {
            if identity.name.is_none() {
                doctor.issue(
                    "no user.name resolves in this repository; run git config user.name <name>",
                );
            }
            if identity.email.is_none() {
                doctor.issue(
                    "no user.email resolves in this repository; git will refuse to commit; run git config user.email <email>",
                );
            }
            match &identity.profile {
                Some(marker) => check_marker(
                    doctor,
                    identity,
                    marker,
                    marker_is_generated,
                    config,
                ),
                None => {
                    if identity.name.is_some() && identity.email.is_some() {
                        doctor.ok(
                            "no cloakroom rule matches this repository; the identity comes from elsewhere",
                        );
                    }
                },
            }
        },
    }
}

////////////////////////////////////////////////////////////////////////////
// The report

/// What the checks behind that of the configuration go by.
#[derive(Debug)]
pub struct Evidence {
    /// The tree on disk, where there is a valid config to compare it with.
    pub tree: Option<TreeOnDisk>,
    /// How many global includes lead to the root.
    pub includes: usize,
    /// What git can do. It counts only where there are remote rules.
    pub support: RemoteRuleSupport,
}

/// The report that the remaining checks make of the one on the configuration:
/// the files it should have produced, then git's ability to use them, then
/// what git resolves in this repository. Only the check of the files needs a
/// configuration.
pub open spec fn completed(
    report: ReportView,
    layout: LayoutView,
    config: Option<ConfigView>,
    evidence: Evidence,
    identity: Option<IdentityView>,
    marker_is_generated: bool,
) -> ReportView {
    let generated = match (config, evidence.tree) {
        (Some(config), Some(tree)) => with_tree(report, tree_of(config), tree),
        _ => report,
    };
    let included = with_include_count(generated, layout, evidence.includes as nat);
    let supported = if asks_for_remotes(config) {
        with_support(included, evidence.support)
    } else {
        included
    };
    with_identity(supported, identity, marker_is_generated, config)
}

/// Runs every check behind that of the configuration, in the order a reader
/// would want to fix them. `doctor` and `config` are what `check_config` came
/// to.
pub fn report(
    doctor: Doctor,
    layout: &Layout,
    config: &Option<Config>,
    evidence: &Evidence,
    identity: &Option<EffectiveIdentity>,
    marker_is_generated: bool,
) -> (result: Report)
    ensures
        result@ == completed(
            doctor@,
            layout@,
            optional_config(*config),
            *evidence,
            optional_identity(*identity),
            marker_is_generated,
        ),
{
    let mut doctor = doctor;
    if let (Some(config), Some(tree)) = (config, &evidence.tree) {
        let compiled = compile(config);
        check_generated(&mut doctor, &compiled, tree);
    }
    check_include(&mut doctor, layout, evidence.includes);
    check_git_version(&mut doctor, config, evidence.support);
    check_identity(&mut doctor, identity, marker_is_generated, config);
    Report { lines: doctor.lines, status: doctor.status }
}

}
