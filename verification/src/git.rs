//! What the installed git answers. Cloakroom never parses gitconfig or
//! matches gitdir/hasconfig patterns itself; git answers, cloakroom reports.
//!
//! Everything here reads the outcome of one run of git: its exit status and
//! what it printed.

use vstd::prelude::*;
use vstd::string::StringExecFns;

use crate::file_path::{names, optional_path, rooted, same_path, FilePath};
use crate::number::{
    decimal, is_digit, law_decimals_are_read_back, lemma_decimal, number_32, parse_number_32,
};
use crate::text::{
    before, contains_text, contents, cut, law_cutting_finds_the_first_separator, law_what_occurs,
    lemma_cut_at, lemma_first_index_is_first, lemma_pieces_of_terminated,
    lemma_trimmed_end_is_prefix, lemma_trimmed_keeps, lemma_up_to_keeps, lossy, lossy_text, occurs,
    optional_text, owned_words, pieces, split_bytes, split_once, strip_prefix, terminated, texts,
    trim, trim_end, trimmed, trimmed_end, up_to, without_prefix,
};

verus! {

/// The outcome of one run of git.
#[derive(Debug)]
pub struct GitOutput {
    /// Whether git exited with status zero.
    pub success: bool,
    /// The exit status, unless a signal ended the run.
    pub code: Option<i32>,
    pub stdout: Vec<u8>,
    pub stderr: Vec<u8>,
}

/// What git printed to its error stream, for a message.
pub open spec fn complaint(output: GitOutput) -> Seq<char> {
    trimmed(lossy_text(output.stderr@))
}

/// What git printed to its error stream, without surrounding white space.
pub fn stderr_of(output: &GitOutput) -> (result: String)
    ensures
        result@ == complaint(*output),
{
    trim(lossy(output.stderr.as_slice()).as_str()).to_owned()
}

////////////////////////////////////////////////////////////////////////////
// The version of git

/// "git version 2.43.0" is (2, 43). Platform suffixes fall away.
pub open spec fn version_in(text: Seq<char>) -> Option<(u32, u32)> {
    match without_prefix(trimmed(text), "git version "@) {
        Some(rest) => match cut(up_to(rest, ' '), '.') {
            Some((major, tail)) => match (number_32(major), number_32(up_to(tail, '.'))) {
                (Some(major), Some(minor)) => Some((major, minor)),
                _ => None,
            },
            None => None,
        },
        None => None,
    }
}

/// Reads the first two numbers of a version line.
pub fn parse_version(text: &str) -> (result: Option<(u32, u32)>)
    ensures
        result == version_in(text@),
{
    match strip_prefix(trim(text), "git version ") {
        Some(rest) => match split_once(before(rest, ' '), '.') {
            Some((major, tail)) => match (
                parse_number_32(major),
                parse_number_32(before(tail, '.')),
            ) {
                (Some(major), Some(minor)) => Some((major, minor)),
                _ => None,
            },
            None => None,
        },
        None => None,
    }
}

/// Whether an outcome is the value or the message that `expected` says.
pub open spec fn is_outcome<T>(outcome: Result<T, String>, expected: Result<T, Seq<char>>) -> bool {
    match outcome {
        Ok(value) => expected == Ok::<T, Seq<char>>(value),
        Err(message) => expected == Err::<T, Seq<char>>(message@),
    }
}

/// The arguments that ask git for its version.
pub open spec fn version_arguments() -> Seq<Seq<char>> {
    seq!["version"@]
}

/// The arguments that ask git for its version.
pub fn ask_version() -> (result: Vec<String>)
    ensures
        texts(result@) == version_arguments(),
{
    let result = owned_words(&["version"]);
    assert(texts(result@) == version_arguments());
    result
}

/// The version that a run of `git version` reports.
pub open spec fn reported_version(output: GitOutput) -> Result<Option<(u32, u32)>, Seq<char>> {
    if output.success {
        Ok(version_in(lossy_text(output.stdout@)))
    } else {
        Err("git version failed: "@ + complaint(output))
    }
}

/// (major, minor) of the installed git, or None when the version string is
/// not of a shape that is recognized.
pub fn version(output: &GitOutput) -> (result: Result<Option<(u32, u32)>, String>)
    ensures
        is_outcome(result, reported_version(*output)),
{
    if !output.success {
        return Err("git version failed: ".to_owned().concat(stderr_of(output).as_str()));
    }
    Ok(parse_version(lossy(output.stdout.as_slice()).as_str()))
}

/// Whether this git understands the `hasconfig` includeIf condition that
/// remote rules compile to.
#[derive(Debug, Clone, Copy, PartialEq, Eq, Structural)]
pub enum RemoteRuleSupport {
    /// git 2.36 or newer.
    Supported,
    /// Older git. It parses `hasconfig` as a condition it does not know and
    /// treats it as false, so remote rules would silently never match.
    TooOld(u32, u32),
    /// The version string did not parse. Treated as unsupported, because the
    /// failure mode of guessing wrong is silent.
    Unknown,
}

/// What a version means for remote rules: they need 2.36.
pub open spec fn support(version: Option<(u32, u32)>) -> RemoteRuleSupport {
    match version {
        Some((major, minor)) => if major > 2 || (major == 2 && minor >= 36) {
            RemoteRuleSupport::Supported
        } else {
            RemoteRuleSupport::TooOld(major, minor)
        },
        None => RemoteRuleSupport::Unknown,
    }
}

/// What a version means for remote rules.
pub fn remote_rule_support_for(version: Option<(u32, u32)>) -> (result: RemoteRuleSupport)
    ensures
        result == support(version),
{
    match version {
        Some((major, minor)) => if major < 2 || (major == 2 && minor < 36) {
            RemoteRuleSupport::TooOld(major, minor)
        } else {
            RemoteRuleSupport::Supported
        },
        None => RemoteRuleSupport::Unknown,
    }
}

/// What a run of `git version` means for remote rules.
pub open spec fn reported_support(output: GitOutput) -> Result<RemoteRuleSupport, Seq<char>> {
    match reported_version(output) {
        Ok(version) => Ok(support(version)),
        Err(message) => Err(message),
    }
}

/// What a run of `git version` means for remote rules.
pub fn remote_rule_support(output: &GitOutput) -> (result: Result<RemoteRuleSupport, String>)
    ensures
        is_outcome(result, reported_support(*output)),
{
    match version(output) {
        Ok(version) => Ok(remote_rule_support_for(version)),
        Err(message) => Err(message),
    }
}

////////////////////////////////////////////////////////////////////////////
// The includes of the global gitconfig

/// The arguments that list every include.path of the global gitconfig.
/// `--path` makes git expand a leading `~`, so the results are comparable to
/// real paths. `--null` keeps paths with spaces or newlines intact.
pub open spec fn listing_arguments() -> Seq<Seq<char>> {
    seq!["config"@, "--global"@, "--path"@, "--null"@, "--get-all"@, "include.path"@]
}

/// The arguments that list every include.path of the global gitconfig.
pub fn list_includes() -> (result: Vec<String>)
    ensures
        texts(result@) == listing_arguments(),
{
    let result = owned_words(
        &["config", "--global", "--path", "--null", "--get-all", "include.path"],
    );
    assert(texts(result@) == listing_arguments());
    result
}

/// The fields that hold something, each read as text.
pub open spec fn filled(fields: Seq<Seq<u8>>) -> Seq<Seq<char>>
    decreases fields.len(),
{
    if fields.len() == 0 {
        seq![]
    } else if fields.last().len() > 0 {
        filled(fields.drop_last()).push(lossy_text(fields.last()))
    } else {
        filled(fields.drop_last())
    }
}

/// The include paths that a run of `git config --get-all` lists. Exit status
/// one with nothing printed means that there are none.
pub open spec fn listed_includes(output: GitOutput) -> Result<Seq<Seq<char>>, Seq<char>> {
    if output.success {
        Ok(filled(pieces(output.stdout@, 0)))
    } else if output.code == Some(1i32) && output.stdout@.len() == 0 {
        Ok(seq![])
    } else {
        Err("git config --get-all include.path failed: "@ + complaint(output))
    }
}

/// Every include.path visible in the global scope, in order.
pub fn global_include_paths(output: &GitOutput) -> (result: Result<Vec<String>, String>)
    ensures
        match result {
            Ok(paths) => listed_includes(*output) == Ok::<Seq<Seq<char>>, Seq<char>>(
                texts(paths@),
            ),
            Err(message) => listed_includes(*output) == Err::<Seq<Seq<char>>, Seq<char>>(message@),
        },
{
    let mut paths: Vec<String> = Vec::new();
    if output.success {
        let fields = split_bytes(output.stdout.as_slice(), 0);
        let ghost all = contents(fields@);
        let mut i: usize = 0;
        assert(all.take(0).len() == 0);
        while i < fields.len()
            invariant
                i <= fields@.len(),
                all == contents(fields@),
                texts(paths@) == filled(all.take(i as int)),
            decreases fields@.len() - i,
        {
            let field = fields[i];
            proof {
                let longer = all.take(i + 1);
                assert(longer.drop_last() == all.take(i as int));
                assert(longer.last() == field@);
            }
            if field.len() > 0 {
                let ghost earlier = paths@;
                let path = lossy(field);
                paths.push(path);
                assert(texts(paths@) == texts(earlier).push(path@));
            }
            i = i + 1;
        }
        assert(all.take(i as int) == all);
        return Ok(paths);
    }
    if output.code.is_some() && output.code.unwrap() == 1 && output.stdout.len() == 0 {
        assert(texts(paths@) == Seq::<Seq<char>>::empty());
        return Ok(paths);
    }
    Err(
        "git config --get-all include.path failed: ".to_owned().concat(
            stderr_of(output).as_str(),
        ),
    )
}

/// A path with what it resolves to, where it does.
#[derive(Debug)]
pub struct ResolvedPath {
    pub path: FilePath,
    pub resolved: Option<FilePath>,
}

/// A path with what it resolves to.
pub struct ResolvedPathView {
    pub path: Seq<u8>,
    pub resolved: Option<Seq<u8>>,
}

impl View for ResolvedPath {
    type V = ResolvedPathView;

    open spec fn view(&self) -> ResolvedPathView {
        ResolvedPathView { path: self.path@, resolved: optional_path(self.resolved) }
    }
}

/// Whether two paths lead to one file: they say the same, or both resolve
/// and to the same. Paths that cannot be resolved are compared as written:
/// two files that do not exist are not known to be one.
pub open spec fn one_target(left: ResolvedPathView, right: ResolvedPathView) -> bool {
    ||| same_path(left.path, right.path)
    ||| (left.resolved is Some && right.resolved is Some && same_path(
        left.resolved->0,
        right.resolved->0,
    ))
}

/// Compares by what the paths resolve to, so a symlink or a different
/// spelling of the same file does not read as a second, unrelated include.
pub fn same_target(left: &ResolvedPath, right: &ResolvedPath) -> (result: bool)
    ensures
        result == one_target(left@, right@),
{
    if left.path.is_same(&right.path) {
        return true;
    }
    match (&left.resolved, &right.resolved) {
        (Some(left), Some(right)) => left.is_same(right),
        _ => false,
    }
}

/// The paths that a list holds.
pub open spec fn resolved_paths(list: Seq<ResolvedPath>) -> Seq<ResolvedPathView> {
    list.map_values(|path: ResolvedPath| path@)
}

/// How many of `includes` lead to `target`.
pub open spec fn leading_to(includes: Seq<ResolvedPathView>, target: ResolvedPathView) -> nat {
    includes.filter(|entry: ResolvedPathView| one_target(entry, target)).len()
}

/// How many global include.path entries lead to `target`. Zero means init has
/// not run; more than one means git reads the generated root twice, which is
/// harmless but a sign the gitconfig was edited by hand.
pub fn equivalent_global_include_count(
    includes: &Vec<ResolvedPath>,
    target: &ResolvedPath,
) -> (result: usize)
    ensures
        result == leading_to(resolved_paths(includes@), target@),
{
    let ghost all = resolved_paths(includes@);
    let ghost leads = |entry: ResolvedPathView| one_target(entry, target@);
    let mut count: usize = 0;
    let mut i: usize = 0;
    assert(all.take(0).filter(leads).len() == 0) by {
        reveal(Seq::filter);
    }
    while i < includes.len()
        invariant
            i <= includes@.len(),
            all == resolved_paths(includes@),
            leads == (|entry: ResolvedPathView| one_target(entry, target@)),
            count == all.take(i as int).filter(leads).len(),
            count <= i,
        decreases includes@.len() - i,
    {
        proof {
            reveal(Seq::filter);
            let longer = all.take(i + 1);
            assert(longer.drop_last() == all.take(i as int));
            assert(longer.last() == includes@[i as int]@);
        }
        if same_target(&includes[i], target) {
            count = count + 1;
        }
        i = i + 1;
    }
    assert(all.take(i as int) == all);
    count
}

/// The arguments that append one include.path to the global gitconfig. `--add`,
/// never `--replace-all`: any other include.path there belongs to the user.
/// This is the only write cloakroom makes outside its own directory.
pub open spec fn adding_arguments(path: Seq<char>) -> Seq<Seq<char>> {
    seq!["config"@, "--global"@, "--add"@, "include.path"@, path]
}

/// The arguments that append one include.path to the global gitconfig. `--add`,
/// never `--replace-all`: any other include.path there belongs to the user.
/// This is the only write cloakroom makes outside its own directory.
pub fn add_include(path: &str) -> (result: Vec<String>)
    ensures
        texts(result@) == adding_arguments(path@),
{
    let result = owned_words(&["config", "--global", "--add", "include.path", path]);
    assert(texts(result@) == adding_arguments(path@));
    result
}

/// What a run of `git config --add` means.
pub open spec fn addition(output: GitOutput) -> Result<(), Seq<char>> {
    if output.success {
        Ok(())
    } else {
        Err("git config --add include.path failed: "@ + complaint(output))
    }
}

/// Whether git appended the include.path.
pub fn add_global_include(output: &GitOutput) -> (result: Result<(), String>)
    ensures
        is_outcome(result, addition(*output)),
{
    if !output.success {
        return Err(
            "git config --add include.path failed: ".to_owned().concat(
                stderr_of(output).as_str(),
            ),
        );
    }
    Ok(())
}

////////////////////////////////////////////////////////////////////////////
// The repository

/// The arguments that ask git for the working tree root.
pub open spec fn toplevel_arguments() -> Seq<Seq<char>> {
    seq!["rev-parse"@, "--show-toplevel"@]
}

/// The arguments that ask git for the working tree root.
pub fn ask_toplevel() -> (result: Vec<String>)
    ensures
        texts(result@) == toplevel_arguments(),
{
    let result = owned_words(&["rev-parse", "--show-toplevel"]);
    assert(texts(result@) == toplevel_arguments());
    result
}

/// The working tree root that a run of `git rev-parse --show-toplevel`
/// reports, or None when there is none.
pub open spec fn toplevel(output: GitOutput) -> Result<Option<Seq<char>>, Seq<char>> {
    if output.success {
        Ok(Some(trimmed_end(lossy_text(output.stdout@))))
    } else if occurs(complaint(output), "not a git repository"@) {
        Ok(None)
    } else {
        Err("git rev-parse failed: "@ + complaint(output))
    }
}

/// The working tree root, or None when there is none. Only "not a git
/// repository" becomes None; any other failure is an error, so an unreadable
/// repository is never reported as no repository.
pub fn repo_toplevel(output: &GitOutput) -> (result: Result<Option<String>, String>)
    ensures
        match result {
            Ok(root) => toplevel(*output) == Ok::<Option<Seq<char>>, Seq<char>>(
                optional_text(root),
            ),
            Err(message) => toplevel(*output) == Err::<Option<Seq<char>>, Seq<char>>(message@),
        },
{
    if output.success {
        let text = lossy(output.stdout.as_slice());
        return Ok(Some(trim_end(text.as_str()).to_owned()));
    }
    if contains_text(stderr_of(output).as_str(), "not a git repository") {
        return Ok(None);
    }
    Err("git rev-parse failed: ".to_owned().concat(stderr_of(output).as_str()))
}

////////////////////////////////////////////////////////////////////////////
// Laws

/// Remote rules count as supported exactly where a version was recognized and
/// it is 2.36 or newer; versions are compared by major number first.
pub proof fn law_support_is_conservative(version: Option<(u32, u32)>)
    ensures
        support(version) == RemoteRuleSupport::Supported <==> (version matches Some((major, minor))
            && (major > 2 || (major == 2 && minor >= 36))),
        support(version) == RemoteRuleSupport::Unknown <==> version is None,
        support(version) matches RemoteRuleSupport::TooOld(major, minor) ==> version == Some(
            (major, minor),
        ),
{
}

/// Whether an include path can be listed between NUL bytes: it is not empty
/// and holds none.
pub open spec fn listable(path: Seq<u8>) -> bool {
    path.len() > 0 && !path.contains(0)
}

/// The includes that git lists are read back whole and in order, whatever
/// else they hold: spaces and newlines do not break a path.
pub proof fn law_listed_includes_are_read_back(output: GitOutput, paths: Seq<Seq<u8>>)
    requires
        output.success,
        output.stdout@ == terminated(paths, 0),
        forall|i: int| 0 <= i < paths.len() ==> listable(#[trigger] paths[i]),
    ensures
        listed_includes(output) == Ok::<Seq<Seq<char>>, Seq<char>>(
            paths.map_values(|path: Seq<u8>| lossy_text(path)),
        ),
{
    lemma_pieces_of_terminated(paths, 0u8);
    assert(paths.push(seq![]).drop_last() == paths);
    lemma_filled(paths);
}

proof fn lemma_filled(fields: Seq<Seq<u8>>)
    requires
        forall|i: int| 0 <= i < fields.len() ==> (#[trigger] fields[i]).len() > 0,
    ensures
        filled(fields) == fields.map_values(|field: Seq<u8>| lossy_text(field)),
    decreases fields.len(),
{
    if fields.len() > 0 {
        let rest = fields.drop_last();
        assert forall|i: int| 0 <= i < rest.len() implies (#[trigger] rest[i]).len() > 0 by {
            assert(rest[i] == fields[i]);
        }
        lemma_filled(rest);
        assert(fields.map_values(|field: Seq<u8>| lossy_text(field)) == rest.map_values(
            |field: Seq<u8>| lossy_text(field),
        ).push(lossy_text(fields.last())));
    }
}

/// An unset key is no failure: exit status one with nothing printed lists no
/// include. Every other failure is an error.
pub proof fn law_only_an_unset_key_lists_nothing(output: GitOutput)
    requires
        !output.success,
    ensures
        listed_includes(output) is Ok <==> output.code == Some(1i32) && output.stdout@.len() == 0,
        listed_includes(output) is Ok ==> listed_includes(output)->Ok_0.len() == 0,
{
}

/// Leading to one file is symmetric, and every path leads to what it says
/// itself. Two different paths of which one cannot be resolved are never
/// taken for one.
pub proof fn law_one_target(left: ResolvedPathView, right: ResolvedPathView)
    ensures
        one_target(left, left),
        one_target(left, right) == one_target(right, left),
        !same_path(left.path, right.path) && left.resolved is None ==> !one_target(left, right),
{
}

/// A version line is read whatever follows the second number, as long as a
/// dot or a space parts them: platform suffixes fall away.
pub proof fn law_versions_are_read_back(major: u32, minor: u32, rest: Seq<char>)
    requires
        rest.len() == 0 || rest[0] == '.' || rest[0] == ' ',
    ensures
        version_in(
            "git version "@ + decimal(major as nat) + "."@ + decimal(minor as nat) + rest,
        ) == Some((major, minor)),
{
    let head = decimal(major as nat);
    let minor_text = decimal(minor as nat);
    let prefix = "git version "@;
    let numbers = head + seq!['.'] + minor_text;
    let tail = trimmed_end(rest);
    let more = up_to(tail, ' ');
    reveal_strlit("git version ");
    reveal_strlit(".");
    assert("."@ == seq!['.']);
    lemma_decimal(major as nat);
    lemma_decimal(minor as nat);
    law_decimals_are_read_back(major);
    law_decimals_are_read_back(minor);
    assert(prefix + head + "."@ + minor_text + rest == (prefix + numbers) + rest);
    assert((prefix + numbers)[0] == 'g');
    assert((prefix + numbers).last() == minor_text.last());
    assert(is_digit(minor_text.last()));
    lemma_trimmed_keeps(prefix + numbers, rest);
    lemma_trimmed_end_is_prefix(rest);
    assert((prefix + numbers + tail).skip(prefix.len() as int) == numbers + tail);
    assert(prefix.is_prefix_of(prefix + numbers + tail));
    assert(!numbers.contains(' ')) by {
        assert forall|k: int| 0 <= k < numbers.len() implies numbers[k] != ' ' by {
            if k < head.len() {
                assert(is_digit(head[k]));
            } else if k > head.len() {
                assert(is_digit(minor_text[k - head.len() - 1]));
            }
        }
    }
    lemma_up_to_keeps(numbers, tail, ' ');
    assert(numbers + more == head + seq!['.'] + (minor_text + more));
    assert(!head.contains('.')) by {
        assert forall|k: int| 0 <= k < head.len() implies head[k] != '.' by {
            assert(is_digit(head[k]));
        }
    }
    lemma_cut_at(head, '.', minor_text + more);
    assert(!minor_text.contains('.')) by {
        assert forall|k: int| 0 <= k < minor_text.len() implies minor_text[k] != '.' by {
            assert(is_digit(minor_text[k]));
        }
    }
    lemma_up_to_keeps(minor_text, more, '.');
    lemma_first_index_is_first(tail, ' ');
    assert(more.len() > 0 ==> more[0] == tail[0]);
    assert(tail.len() > 0 ==> tail[0] == rest[0]);
    assert(up_to(more, '.').len() == 0);
    assert(minor_text + up_to(more, '.') == minor_text);
}

/// Whether texts can be the major and the minor number of a version line, and
/// what follows them.
pub open spec fn version_parts(major: Seq<char>, minor: Seq<char>, rest: Seq<char>) -> bool {
    &&& forall|i: int| 0 <= i < major.len() ==> #[trigger] major[i] != '.' && major[i] != ' '
    &&& forall|i: int| 0 <= i < minor.len() ==> #[trigger] minor[i] != '.' && minor[i] != ' '
    &&& rest.len() == 0 || rest[0] == '.' || rest[0] == ' '
}

/// A version line is recognized exactly if it is, apart from white space
/// around it, `git version`, two numbers with a dot between them, and nothing
/// or something that a dot or a space parts from them. The numbers are the
/// version.
pub proof fn law_version_lines_are_recognized(text: Seq<char>)
    ensures
        forall|major: Seq<char>, minor: Seq<char>, rest: Seq<char>|
            #![trigger "git version "@ + major + "."@ + minor + rest]
            trimmed(text) == "git version "@ + major + "."@ + minor + rest && version_parts(
                major,
                minor,
                rest,
            ) ==> version_in(text) == match (number_32(major), number_32(minor)) {
                (Some(major), Some(minor)) => Some((major, minor)),
                _ => None,
            },
        version_in(text) matches Some((major, minor)) ==> exists|
            first: Seq<char>,
            second: Seq<char>,
            rest: Seq<char>,
        |
            #![trigger "git version "@ + first + "."@ + second + rest]
            trimmed(text) == "git version "@ + first + "."@ + second + rest && version_parts(
                first,
                second,
                rest,
            ) && number_32(first) == Some(major) && number_32(second) == Some(minor),
{
    assert forall|major: Seq<char>, minor: Seq<char>, rest: Seq<char>|
        #![trigger "git version "@ + major + "."@ + minor + rest]
        trimmed(text) == "git version "@ + major + "."@ + minor + rest && version_parts(
            major,
            minor,
            rest,
        ) implies version_in(text) == match (number_32(major), number_32(minor)) {
        (Some(major), Some(minor)) => Some((major, minor)),
        _ => None,
    } by {
        lemma_version_line(trimmed(text), major, minor, rest);
    }
    if version_in(text) is Some {
        lemma_version_line_has_parts(trimmed(text));
    }
}

proof fn lemma_version_line(line: Seq<char>, major: Seq<char>, minor: Seq<char>, rest: Seq<char>)
    requires
        line == "git version "@ + major + "."@ + minor + rest,
        version_parts(major, minor, rest),
    ensures
        without_prefix(line, "git version "@) is Some,
        ({
            let token = up_to(without_prefix(line, "git version "@)->0, ' ');
            &&& cut(token, '.') is Some
            &&& (cut(token, '.')->0).0 == major
            &&& up_to((cut(token, '.')->0).1, '.') == minor
        }),
{
    let prefix = "git version "@;
    let numbers = major + seq!['.'] + minor;
    let more = up_to(rest, ' ');
    reveal_strlit(".");
    assert("."@ == seq!['.']);
    assert(line == prefix + (numbers + rest));
    assert(prefix.is_prefix_of(line));
    assert(line.skip(prefix.len() as int) == numbers + rest);
    assert forall|k: int| 0 <= k < numbers.len() implies numbers[k] != ' ' by {
        if k < major.len() {
            assert(numbers[k] == major[k]);
        } else if k > major.len() {
            assert(numbers[k] == minor[k - major.len() - 1]);
        }
    }
    lemma_up_to_keeps(numbers, rest, ' ');
    assert(numbers + more == major + seq!['.'] + (minor + more));
    assert(!major.contains('.'));
    lemma_cut_at(major, '.', minor + more);
    assert(!minor.contains('.'));
    lemma_up_to_keeps(minor, more, '.');
    lemma_first_index_is_first(rest, ' ');
    assert(more.len() > 0 ==> more[0] == rest[0]);
    lemma_first_index_is_first(more, '.');
    assert(more.len() > 0 ==> more[0] == '.');
    assert(up_to(more, '.').len() == 0);
    assert(minor + up_to(more, '.') == minor);
}

proof fn lemma_version_line_has_parts(line: Seq<char>)
    requires
        without_prefix(line, "git version "@) is Some,
        cut(up_to(without_prefix(line, "git version "@)->0, ' '), '.') is Some,
    ensures
        ({
            let (major, tail) = cut(up_to(without_prefix(line, "git version "@)->0, ' '), '.')->0;
            let minor = up_to(tail, '.');
            exists|rest: Seq<char>|
                line == #[trigger] ("git version "@ + major + "."@ + minor + rest)
                    && version_parts(major, minor, rest)
        }),
{
    let prefix = "git version "@;
    let whole = without_prefix(line, prefix)->0;
    let token = up_to(whole, ' ');
    let (major, tail) = cut(token, '.')->0;
    let minor = up_to(tail, '.');
    let behind_token = lemma_up_to_splits(whole, ' ');
    let behind_minor = lemma_up_to_splits(tail, '.');
    law_cutting_finds_the_first_separator(token, '.');
    let rest = behind_minor + behind_token;
    assert(version_parts(major, minor, rest)) by {
        assert forall|i: int| 0 <= i < major.len() implies #[trigger] major[i] != '.' && major[i]
            != ' ' by {
            assert(major[i] == token[i]);
            assert(major.contains(major[i]));
            assert(token.contains(token[i]));
        }
        assert forall|i: int| 0 <= i < minor.len() implies #[trigger] minor[i] != '.' && minor[i]
            != ' ' by {
            let at = major.len() + 1 + i;
            assert(minor[i] == tail[i]);
            assert(token[at] == tail[i]);
            assert(minor.contains(minor[i]));
            assert(token.contains(token[at]));
        }
    }
    assert(line == prefix + whole);
    lemma_line_of_parts(line, major, minor, behind_minor, behind_token);
}

/// The parts of a version line make it up.
proof fn lemma_line_of_parts(
    line: Seq<char>,
    major: Seq<char>,
    minor: Seq<char>,
    first: Seq<char>,
    second: Seq<char>,
)
    requires
        line == "git version "@ + (major + seq!['.'] + (minor + first) + second),
    ensures
        line == "git version "@ + major + "."@ + minor + (first + second),
{
    reveal_strlit(".");
    assert("."@ == seq!['.']);
    assert(line =~= "git version "@ + major + "."@ + minor + (first + second));
}

/// What stands behind the part before the first separator starts with it.
proof fn lemma_up_to_splits(text: Seq<char>, separator: char) -> (rest: Seq<char>)
    ensures
        text == up_to(text, separator) + rest,
        !up_to(text, separator).contains(separator),
        rest.len() > 0 ==> rest[0] == separator,
{
    law_cutting_finds_the_first_separator(text, separator);
    let head = up_to(text, separator);
    let rest = text.skip(head.len() as int);
    assert(text == head + rest);
    rest
}

/// What git's answers come to where it failed: each failure is an error that
/// quotes what git printed on its error stream. Only an unset key is none.
pub proof fn law_failures_of_git_are_quoted(output: GitOutput)
    requires
        !output.success,
    ensures
        ({
            let grumble = trimmed(lossy_text(output.stderr@));
            &&& reported_version(output) == Err::<Option<(u32, u32)>, Seq<char>>(
                "git version failed: "@ + grumble,
            )
            &&& !(output.code == Some(1i32) && output.stdout@.len() == 0) ==> listed_includes(
                output,
            ) == Err::<Seq<Seq<char>>, Seq<char>>(
                "git config --get-all include.path failed: "@ + grumble,
            )
            &&& addition(output) == Err::<(), Seq<char>>(
                "git config --add include.path failed: "@ + grumble,
            )
            &&& toplevel(output) is Ok <==> exists|before: Seq<char>, after: Seq<char>|
                grumble == #[trigger] (before + "not a git repository"@ + after)
            &&& toplevel(output) matches Ok(found) ==> found is None
            &&& toplevel(output) matches Err(message) ==> message == "git rev-parse failed: "@
                + grumble
        }),
{
    law_what_occurs(complaint(output), "not a git repository"@);
}

/// What git lists is taken piece by piece: an empty piece is no path, and
/// every other one is, in order.
pub proof fn law_listed_pieces_are_paths(left: Seq<Seq<u8>>, right: Seq<Seq<u8>>, only: Seq<u8>)
    ensures
        filled(left + right) == filled(left) + filled(right),
        only.len() > 0 ==> filled(seq![only]) == seq![lossy_text(only)],
        only.len() == 0 ==> filled(seq![only]).len() == 0,
    decreases right.len(),
{
    let none = Seq::<Seq<u8>>::empty();
    assert(seq![only].drop_last() == none);
    assert(filled(none) == Seq::<Seq<char>>::empty());
    if right.len() == 0 {
        assert(left + right == left);
        assert(filled(left) + filled(right) == filled(left));
    } else {
        law_listed_pieces_are_paths(left, right.drop_last(), only);
        assert((left + right).drop_last() == left + right.drop_last());
        assert((left + right).last() == right.last());
        assert(filled(left + right) == filled(left) + filled(right));
    }
}

/// Two paths lead to one file exactly if they say the same, or both can be
/// resolved and resolve to the same: they start alike and lead through the
/// same names. The includes that lead to a target are counted one by one.
pub proof fn law_includes_are_counted_one_by_one(
    left: Seq<ResolvedPathView>,
    right: Seq<ResolvedPathView>,
    only: ResolvedPathView,
    target: ResolvedPathView,
)
    ensures
        leading_to(left + right, target) == leading_to(left, target) + leading_to(right, target),
        leading_to(Seq::empty(), target) == 0,
        leading_to(seq![only], target) == (if one_target(only, target) {
            1nat
        } else {
            0nat
        }),
        one_target(only, target) <==> {
            ||| rooted(only.path) == rooted(target.path) && names(only.path) == names(target.path)
            ||| only.resolved is Some && target.resolved is Some && rooted(only.resolved->0)
                == rooted(target.resolved->0) && names(only.resolved->0) == names(
                target.resolved->0,
            )
        },
{
    let leads = |entry: ResolvedPathView| one_target(entry, target);
    Seq::filter_distributes_over_add(left, right, leads);
    reveal(Seq::filter);
    assert(seq![only].drop_last() == Seq::<ResolvedPathView>::empty());
    assert(seq![only].drop_last().filter(leads).len() == 0);
}

/// Where git ended well, its answer is what it printed: the version in it, the
/// paths between NUL bytes, an include that was added, a directory.
pub proof fn law_answers_of_git_are_what_it_printed(output: GitOutput)
    requires
        output.success,
    ensures
        reported_version(output) == Ok::<Option<(u32, u32)>, Seq<char>>(
            version_in(lossy_text(output.stdout@)),
        ),
        listed_includes(output) == Ok::<Seq<Seq<char>>, Seq<char>>(
            filled(pieces(output.stdout@, 0)),
        ),
        addition(output) is Ok,
        toplevel(output) == Ok::<Option<Seq<char>>, Seq<char>>(
            Some(trimmed_end(lossy_text(output.stdout@))),
        ),
{
}

}
