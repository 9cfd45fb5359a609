//! Explains the identity git resolves and whether cloakroom supplied it.
//!
//! Answers one question: what will git put on the next commit here, and did
//! cloakroom put it there. Everything is read back through git, so the answer
//! is what git will actually do, not what the config says it should do.

use vstd::prelude::*;
use vstd::string::StringExecFns;
use vstd::utf8::{
    decode_utf8, decode_utf8_encode_utf8, encode_utf8, encode_utf8_decode_utf8,
    encode_utf8_valid_utf8, is_ascii_chars_encode_utf8, valid_utf8,
};

use crate::file_path::{
    joined, law_joining_adds_one_name, names, optional_path, rooted, same_lists, same_path,
    FilePath,
};
use crate::identity::{ConfigEntry, EffectiveIdentity, EntryView, IdentityView};
use crate::paths::{
    law_everything_hangs_off_the_config_dir, lemma_object_name, object_gitconfig, objects_dir,
};
use crate::run_status::RunStatus;
use crate::text::{
    characters, contents, optional_text, same_text, strip_suffix, texts, utf8, without_suffix,
};

verus! {

/// Lines to print and the status they add up to.
#[derive(Debug)]
pub struct Report {
    pub lines: Vec<String>,
    pub status: RunStatus,
}

/// Lines to print and the status they add up to.
pub struct ReportView {
    pub lines: Seq<Seq<char>>,
    pub status: RunStatus,
}

impl View for Report {
    type V = ReportView;

    open spec fn view(&self) -> ReportView {
        ReportView { lines: texts(self.lines@), status: self.status }
    }
}

////////////////////////////////////////////////////////////////////////////
// Where values come from

/// Whether two origins are one file, or both no file at all.
pub open spec fn one_file(left: Option<Seq<char>>, right: Option<Seq<char>>) -> bool {
    match (left, right) {
        (Some(left), Some(right)) => same_path(encode_utf8(left), encode_utf8(right)),
        (None, None) => true,
        _ => false,
    }
}

/// Whether two values came from one source.
pub open spec fn one_source(left: EntryView, right: EntryView) -> bool {
    left.scope == right.scope && one_file(left.origin, right.origin)
}

/// Whether two resolved values came from the same file. Scope alone is not
/// enough: several global-scope files are in play once includes are involved.
pub fn same_origin(left: &ConfigEntry, right: &ConfigEntry) -> (result: bool)
    ensures
        result == one_source(left@, right@),
{
    let files = match (&left.origin, &right.origin) {
        (Some(a), Some(b)) => FilePath::from_text(a.as_str()).is_same(
            &FilePath::from_text(b.as_str()),
        ),
        (None, None) => true,
        _ => false,
    };
    files && same_text(left.scope.as_str(), right.scope.as_str())
}

/// Whether `c` is a hexadecimal digit.
pub open spec fn hex_digit(c: char) -> bool {
    ||| '0' <= c <= '9'
    ||| 'a' <= c <= 'f'
    ||| 'A' <= c <= 'F'
}

/// Whether `text` is made of hexadecimal digits alone.
pub open spec fn hexadecimal(text: Seq<char>) -> bool {
    forall|i: int| 0 <= i < text.len() ==> hex_digit(#[trigger] text[i])
}

/// Whether `text` can be the digest of an object: 64 hexadecimal digits.
pub open spec fn digest_like(text: Seq<char>) -> bool {
    text.len() == 64 && hexadecimal(text)
}

/// Whether a file name is that of an object: a digest, then `.gitconfig`.
pub open spec fn object_name(name: Seq<u8>) -> bool {
    valid_utf8(name) && match without_suffix(decode_utf8(name), ".gitconfig"@) {
        Some(digest) => digest_like(digest),
        None => false,
    }
}

/// Whether `origin` is an object directly inside `objects`.
pub open spec fn generated_object(origin: Seq<u8>, objects: Seq<u8>) -> bool {
    &&& names(origin).len() > 0
    &&& rooted(origin) == rooted(objects)
    &&& names(origin).drop_last() == names(objects)
    &&& object_name(names(origin).last())
}

/// Decides `digest_like`.
pub fn is_digest(text: &str) -> (result: bool)
    ensures
        result == digest_like(text@),
{
    let chars = characters(text);
    if chars.len() != 64 {
        return false;
    }
    let mut i: usize = 0;
    while i < chars.len()
        invariant
            chars@ == text@,
            text@.len() == 64,
            i <= chars@.len(),
            forall|k: int| 0 <= k < i ==> hex_digit(#[trigger] text@[k]),
        decreases chars@.len() - i,
    {
        let c = chars[i];
        if !(('0' <= c && c <= '9') || ('a' <= c && c <= 'f') || ('A' <= c && c <= 'F')) {
            assert(!hex_digit(text@[i as int]));
            return false;
        }
        i = i + 1;
    }
    true
}

/// Decides `generated_object`.
pub fn is_generated_object(origin: &FilePath, objects: &FilePath) -> (result: bool)
    ensures
        result == generated_object(origin@, objects@),
{
    let path = origin.names();
    let directory = objects.names();
    if path.len() == 0 {
        assert(contents(path@).len() == 0);
        return false;
    }
    let last = path.len() - 1;
    let ghost all = contents(path@);
    assert(all.take(last as int) == all.drop_last());
    assert(all.last() == path@[last as int]@);
    if origin.is_absolute() != objects.is_absolute() || !same_lists(
        &path,
        &directory,
        last,
        directory.len(),
    ) {
        return false;
    }
    match utf8(path[last]) {
        Some(name) => match strip_suffix(name.as_str(), ".gitconfig") {
            Some(digest) => is_digest(digest),
            None => false,
        },
        None => false,
    }
}

/// Whether `entry` came from an object, given what its origin and the
/// directory of the objects resolve to.
pub open spec fn generated_marker(
    entry: EntryView,
    origin: Option<Seq<u8>>,
    objects: Option<Seq<u8>>,
) -> bool {
    &&& entry.origin is Some
    &&& origin is Some
    &&& objects is Some
    &&& generated_object(origin->0, objects->0)
}

/// Whether this value came from a file cloakroom generated: directly inside
/// objects/, named `<64 hex>.gitconfig`.
///
/// `cloakroom.profile` is an ordinary config key that anyone can set. Trusting
/// it on sight would let a hand-written gitconfig claim to be a profile, so
/// reports check where it came from instead of what it says. `origin` and
/// `objects` are what the origin and the directory resolve to, so a symlinked
/// config directory still matches; what cannot be resolved proves nothing.
pub fn is_generated_marker(
    entry: &ConfigEntry,
    origin: &Option<FilePath>,
    objects: &Option<FilePath>,
) -> (result: bool)
    ensures
        result == generated_marker(entry@, optional_path(*origin), optional_path(*objects)),
{
    if entry.origin.is_none() {
        return false;
    }
    match (origin, objects) {
        (Some(origin), Some(objects)) => is_generated_object(origin, objects),
        _ => false,
    }
}

/// How a report names where a value came from.
pub open spec fn source_text(entry: EntryView) -> Seq<char> {
    match entry.origin {
        Some(path) => path,
        None => "a non-file origin"@,
    }
}

/// A printable source. Values set on the command line or read from a blob
/// have no file, and a report has to say something about them anyway.
pub fn origin_display(entry: &ConfigEntry) -> (result: String)
    ensures
        result@ == source_text(entry@),
{
    match &entry.origin {
        Some(path) => path.clone(),
        None => "a non-file origin".to_owned(),
    }
}

////////////////////////////////////////////////////////////////////////////
// The report

/// The line on the repository.
pub open spec fn repository_line(toplevel: Option<Seq<char>>) -> Seq<char> {
    match toplevel {
        Some(root) => "repository: "@ + root,
        None => "repository: none (not inside a git repository; showing the fall-through identity)"@,
    }
}

/// The line on the identity.
pub open spec fn identity_line(identity: IdentityView) -> Seq<char> {
    match (identity.name, identity.email) {
        (Some(name), Some(email)) => "identity:   "@ + name.value + " <"@ + email.value + ">"@,
        (Some(name), None) => "identity:   "@ + name.value + " (user.email is not set)"@,
        (None, Some(email)) => "identity:   <"@ + email.value + "> (user.name is not set)"@,
        (None, None) => "identity:   none (git resolves no user.name or user.email)"@,
    }
}

/// Whether a value came from the file that the marker did, and that file is
/// one that cloakroom generated.
pub open spec fn supplied(
    value: Option<EntryView>,
    marker: EntryView,
    marker_is_generated: bool,
) -> bool {
    value is Some && marker_is_generated && one_source(value->0, marker)
}

/// Whether cloakroom supplied both name and email along with the marker.
pub open spec fn fully_supplied(
    identity: IdentityView,
    marker: EntryView,
    marker_is_generated: bool,
) -> bool {
    supplied(identity.name, marker, marker_is_generated) && supplied(
        identity.email,
        marker,
        marker_is_generated,
    )
}

/// The line on where an overriding value came from, if there is one.
pub open spec fn override_line(
    label: Seq<char>,
    value: Option<EntryView>,
    marker: EntryView,
    marker_is_generated: bool,
) -> Seq<Seq<char>> {
    if value is Some && !supplied(value, marker, marker_is_generated) {
        seq![label + source_text(value->0) + " (scope "@ + (value->0).scope + ")"@]
    } else {
        seq![]
    }
}

/// The lines on the profile.
pub open spec fn profile_lines(identity: IdentityView, marker_is_generated: bool) -> Seq<
    Seq<char>,
> {
    match identity.profile {
        None => {
            let source = if identity.email is Some {
                identity.email
            } else {
                identity.name
            };
            match source {
                Some(entry) => seq![
                    "profile:    none (identity from "@ + source_text(entry) + ", scope "@
                        + entry.scope + ")"@,
                ],
                None => seq!["profile:    none"@],
            }
        },
        Some(marker) => if fully_supplied(identity, marker, marker_is_generated) {
            seq!["profile:    "@ + marker.value + " (selected by cloakroom)"@]
        } else {
            seq!["profile:    "@ + marker.value + " selected, but the identity is overridden"@]
                + override_line("name from:  "@, identity.name, marker, marker_is_generated)
                + override_line("email from: "@, identity.email, marker, marker_is_generated)
        },
    }
}

/// The status: clean when name and email are set and nothing overrides what a
/// marker selects.
pub open spec fn identity_status(identity: IdentityView, marker_is_generated: bool) -> RunStatus {
    if identity.name is None || identity.email is None || (identity.profile is Some
        && !fully_supplied(identity, identity.profile->0, marker_is_generated)) {
        RunStatus::Issues
    } else {
        RunStatus::Clean
    }
}

/// The report on an identity.
pub open spec fn identity_report(
    toplevel: Option<Seq<char>>,
    identity: IdentityView,
    marker_is_generated: bool,
) -> ReportView {
    ReportView {
        lines: seq![repository_line(toplevel), identity_line(identity)] + profile_lines(
            identity,
            marker_is_generated,
        ),
        status: identity_status(identity, marker_is_generated),
    }
}

/// Adds a line.
pub(crate) fn add_line(lines: &mut Vec<String>, line: String)
    ensures
        texts(final(lines)@) == texts(old(lines)@).push(line@),
{
    lines.push(line);
    assert(texts(lines@) == texts(old(lines)@).push(line@));
}

/// Decides `supplied`.
fn is_supplied(
    value: &Option<ConfigEntry>,
    marker: &ConfigEntry,
    marker_is_generated: bool,
) -> (result: bool)
    ensures
        result == supplied(
            crate::identity::optional_entry(*value),
            marker@,
            marker_is_generated,
        ),
{
    match value {
        Some(entry) => marker_is_generated && same_origin(entry, marker),
        None => false,
    }
}

/// Adds the line on an overriding value, if there is one.
fn add_override(
    lines: &mut Vec<String>,
    label: &str,
    value: &Option<ConfigEntry>,
    marker: &ConfigEntry,
    marker_is_generated: bool,
)
    ensures
        texts(final(lines)@) == texts(old(lines)@) + override_line(
            label@,
            crate::identity::optional_entry(*value),
            marker@,
            marker_is_generated,
        ),
{
    if let Some(entry) = value {
        if !is_supplied(value, marker, marker_is_generated) {
            add_line(
                lines,
                label.to_owned().concat(origin_display(entry).as_str()).concat(" (scope ").concat(
                    entry.scope.as_str(),
                ).concat(")"),
            );
        }
    }
    assert(texts(lines@) == texts(old(lines)@) + override_line(
        label@,
        crate::identity::optional_entry(*value),
        marker@,
        marker_is_generated,
    ));
}

/// Issues, not failures: an incomplete or overridden identity is a true
/// report of a real state.
///
/// A marker alone proves nothing. The values must come from the same
/// generated file the marker did: git resolves each key independently, so a
/// later scope can replace user.name while leaving the marker behind.
pub fn report(
    toplevel: &Option<String>,
    identity: &EffectiveIdentity,
    marker_is_generated: bool,
) -> (result: Report)
    ensures
        result@ == identity_report(optional_text(*toplevel), identity@, marker_is_generated),
{
    let mut lines: Vec<String> = Vec::new();
    let repository = match toplevel {
        Some(root) => "repository: ".to_owned().concat(root.as_str()),
        None => "repository: none (not inside a git repository; showing the fall-through identity)".to_owned(),
    };
    add_line(&mut lines, repository);
    let who = match (&identity.name, &identity.email) {
        (Some(name), Some(email)) => "identity:   ".to_owned().concat(name.value.as_str()).concat(
            " <",
        ).concat(email.value.as_str()).concat(">"),
        (Some(name), None) => "identity:   ".to_owned().concat(name.value.as_str()).concat(
            " (user.email is not set)",
        ),
        (None, Some(email)) => "identity:   <".to_owned().concat(email.value.as_str()).concat(
            "> (user.name is not set)",
        ),
        (None, None) => "identity:   none (git resolves no user.name or user.email)".to_owned(),
    };
    add_line(&mut lines, who);
    assert(texts(lines@) == seq![
        repository_line(optional_text(*toplevel)),
        identity_line(identity@),
    ]);

    let mut status = if identity.name.is_none() || identity.email.is_none() {
        RunStatus::Issues
    } else {
        RunStatus::Clean
    };
    let ghost head = texts(lines@);
    match &identity.profile {
        None => {
            let source = match &identity.email {
                Some(email) => Some(email),
                None => match &identity.name {
                    Some(name) => Some(name),
                    None => None,
                },
            };
            match source {
                Some(entry) => add_line(
                    &mut lines,
                    "profile:    none (identity from ".to_owned().concat(
                        origin_display(entry).as_str(),
                    ).concat(", scope ").concat(entry.scope.as_str()).concat(")"),
                ),
                None => add_line(&mut lines, "profile:    none".to_owned()),
            }
        },
        Some(marker) => {
            let complete = is_supplied(&identity.name, marker, marker_is_generated) && is_supplied(
                &identity.email,
                marker,
                marker_is_generated,
            );
            if complete {
                add_line(
                    &mut lines,
                    "profile:    ".to_owned().concat(marker.value.as_str()).concat(
                        " (selected by cloakroom)",
                    ),
                );
            } else {
                add_line(
                    &mut lines,
                    "profile:    ".to_owned().concat(marker.value.as_str()).concat(
                        " selected, but the identity is overridden",
                    ),
                );
                add_override(
                    &mut lines,
                    "name from:  ",
                    &identity.name,
                    marker,
                    marker_is_generated,
                );
                add_override(
                    &mut lines,
                    "email from: ",
                    &identity.email,
                    marker,
                    marker_is_generated,
                );
                status = RunStatus::Issues;
            }
        },
    }
    assert(texts(lines@) == head + profile_lines(identity@, marker_is_generated));
    Report { lines, status }
}

////////////////////////////////////////////////////////////////////////////
// Laws

/// An object that cloakroom generates is recognized as one, wherever the
/// configuration lives.
pub proof fn law_generated_objects_are_recognized(config_dir: Seq<u8>, digest: Seq<char>)
    requires
        digest_like(digest),
    ensures
        generated_object(object_gitconfig(config_dir, digest), objects_dir(config_dir)),
{
    law_everything_hangs_off_the_config_dir(config_dir, digest);
    let name = digest + ".gitconfig"@;
    encode_utf8_valid_utf8(name);
    encode_utf8_decode_utf8(name);
    assert(".gitconfig"@.is_suffix_of(name));
    assert(name.take(name.len() - ".gitconfig"@.len()) == digest);
    let path = names(object_gitconfig(config_dir, digest));
    assert(path.drop_last() == names(objects_dir(config_dir)));
}

/// Only a file directly inside the directory of the objects is taken for
/// one, and only under the name of a digest.
pub proof fn law_nothing_else_is_taken_for_an_object(origin: Seq<u8>, objects: Seq<u8>)
    requires
        generated_object(origin, objects),
    ensures
        names(origin).len() == names(objects).len() + 1,
        names(origin).last().len() == 74,
        same_path(origin, joined(objects, names(origin).last())),
{
    let name = names(origin).last();
    let text = decode_utf8(name);
    reveal_strlit(".gitconfig");
    decode_utf8_encode_utf8(name);
    let digest = text.take(text.len() - 10);
    assert(digest_like(digest));
    assert(text == digest + ".gitconfig"@);
    lemma_object_name(digest);
    assert forall|i: int| 0 <= i < text.len() implies '\0' <= #[trigger] text[i] <= '\u{7f}' by {
        if i < 64 {
            assert(hex_digit(digest[i]));
        }
    }
    is_ascii_chars_encode_utf8(text);
    law_joining_adds_one_name(objects, name);
    assert(names(objects).push(name) == names(origin));
}

/// A report is clean exactly if name and email are set and, where a profile
/// is selected, both come from the generated file that its marker came from.
/// So a marker alone proves nothing. A report that is not clean has issues; it
/// never fails.
pub proof fn law_a_clean_status_is_a_complete_identity(
    toplevel: Option<Seq<char>>,
    identity: IdentityView,
    marker_is_generated: bool,
)
    ensures
        identity_report(toplevel, identity, marker_is_generated).status == RunStatus::Clean <==> {
            &&& identity.name is Some
            &&& identity.email is Some
            &&& identity.profile matches Some(marker) ==> marker_is_generated && one_source(
                identity.name->0,
                marker,
            ) && one_source(identity.email->0, marker)
        },
        identity_report(toplevel, identity, marker_is_generated).status != RunStatus::Failure,
{
}

}
