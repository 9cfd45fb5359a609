//! The identity that git resolves: the selected profile, the name and the
//! email, each with where git found it.

use vstd::prelude::*;
use vstd::string::StringExecFns;
use vstd::utf8::encode_utf8;

use crate::git::{complaint, stderr_of, GitOutput};
use crate::text::{
    contents, cut, law_cutting_finds_the_first_separator, lemma_cut_at, lemma_first_piece,
    lemma_lossy_reads_back, lemma_only_piece, lemma_pieces_of_terminated, lossy, lossy_text,
    optional_text, owned_words, pieces, same_text, split_bytes, split_once, strip_prefix,
    terminated, texts, trimmed, without_prefix,
};

verus! {

/// One resolved config value with where git found it.
#[derive(Debug)]
pub struct ConfigEntry {
    pub scope: String,
    /// Present for `file:` origins; command line and blob origins are not
    /// files.
    pub origin: Option<String>,
    pub value: String,
}

/// The three values cloakroom cares about, as git resolved them. Each keeps
/// its own origin, so a report can say which file won and whether two of them
/// came from the same one.
#[derive(Debug)]
pub struct EffectiveIdentity {
    pub profile: Option<ConfigEntry>,
    pub name: Option<ConfigEntry>,
    pub email: Option<ConfigEntry>,
}

/// A resolved value.
pub struct EntryView {
    pub scope: Seq<char>,
    pub origin: Option<Seq<char>>,
    pub value: Seq<char>,
}

/// A resolved identity.
pub struct IdentityView {
    pub profile: Option<EntryView>,
    pub name: Option<EntryView>,
    pub email: Option<EntryView>,
}

impl View for ConfigEntry {
    type V = EntryView;

    open spec fn view(&self) -> EntryView {
        EntryView {
            scope: self.scope@,
            origin: optional_text(self.origin),
            value: self.value@,
        }
    }
}

/// The value that an optional entry holds.
pub open spec fn optional_entry(entry: Option<ConfigEntry>) -> Option<EntryView> {
    match entry {
        Some(entry) => Some(entry@),
        None => None,
    }
}

impl View for EffectiveIdentity {
    type V = IdentityView;

    open spec fn view(&self) -> IdentityView {
        IdentityView {
            profile: optional_entry(self.profile),
            name: optional_entry(self.name),
            email: optional_entry(self.email),
        }
    }
}

/// The identity that an optional value holds.
pub open spec fn optional_identity(identity: Option<EffectiveIdentity>) -> Option<IdentityView> {
    match identity {
        Some(identity) => Some(identity@),
        None => None,
    }
}

/// Nothing resolved.
pub open spec fn nothing() -> IdentityView {
    IdentityView { profile: None, name: None, email: None }
}

/// The key of a `key LF value` pair. A pair without LF is a key without a
/// value.
pub open spec fn key_of(pair: Seq<char>) -> Seq<char> {
    match cut(pair, '\n') {
        Some((key, _)) => key,
        None => pair,
    }
}

/// What one record says of its key: its value with where it came from, or
/// None for a key without a value.
pub open spec fn entry_of(scope: Seq<char>, origin: Seq<char>, pair: Seq<char>) -> Option<
    EntryView,
> {
    match cut(pair, '\n') {
        Some((_, value)) => Some(
            EntryView { scope, origin: without_prefix(origin, "file:"@), value },
        ),
        None => None,
    }
}

/// `identity` once a record for `key` says `entry`. Other keys than the three
/// change nothing.
pub open spec fn with_entry(
    identity: IdentityView,
    key: Seq<char>,
    entry: Option<EntryView>,
) -> IdentityView {
    if key == "cloakroom.profile"@ {
        IdentityView { profile: entry, ..identity }
    } else if key == "user.name"@ {
        IdentityView { name: entry, ..identity }
    } else if key == "user.email"@ {
        IdentityView { email: entry, ..identity }
    } else {
        identity
    }
}

/// `identity` after one record.
pub open spec fn recorded(
    identity: IdentityView,
    scope: Seq<char>,
    origin: Seq<char>,
    pair: Seq<char>,
) -> IdentityView {
    with_entry(identity, key_of(pair), entry_of(scope, origin, pair))
}

/// What a stream of fields, three to a record, makes of `identity`. An empty
/// scope, or the end, closes the stream; a record that lacks a field or whose
/// pair is empty is an error.
pub open spec fn after_fields(identity: IdentityView, fields: Seq<Seq<u8>>) -> Result<
    IdentityView,
    Seq<char>,
>
    decreases fields.len(),
{
    if fields.len() == 0 || fields[0].len() == 0 {
        Ok(identity)
    } else if fields.len() == 1 {
        Err("git config output has no origin"@)
    } else if fields.len() == 2 {
        Err("git config output has no key and value"@)
    } else if fields[2].len() == 0 {
        Err("git config output has an empty key"@)
    } else {
        after_fields(
            recorded(
                identity,
                lossy_text(fields[0]),
                lossy_text(fields[1]),
                lossy_text(fields[2]),
            ),
            fields.skip(3),
        )
    }
}

/// The identity that a NUL-separated listing holds.
pub open spec fn identity_in(bytes: Seq<u8>) -> Result<IdentityView, Seq<char>> {
    after_fields(nothing(), pieces(bytes, 0))
}

/// Whether an outcome is the one that `expected` says.
pub open spec fn is_identity(
    outcome: Result<EffectiveIdentity, String>,
    expected: Result<IdentityView, Seq<char>>,
) -> bool {
    match outcome {
        Ok(identity) => expected == Ok::<IdentityView, Seq<char>>(identity@),
        Err(message) => expected == Err::<IdentityView, Seq<char>>(message@),
    }
}

/// Takes one record into account: scope, origin, and the key with its value.
/// It overwrites what an earlier scope set, because that is what git
/// resolves to.
pub fn record(identity: EffectiveIdentity, scope: &str, origin: &str, pair: &str) -> (result:
    EffectiveIdentity)
    ensures
        result@ == recorded(identity@, scope@, origin@, pair@),
{
    let mut identity = identity;
    let (key, entry) = match split_once(pair, '\n') {
        Some((key, value)) => {
            let file = match strip_prefix(origin, "file:") {
                Some(path) => Some(path.to_owned()),
                None => None,
            };
            let entry = ConfigEntry {
                scope: scope.to_owned(),
                origin: file,
                value: value.to_owned(),
            };
            (key, Some(entry))
        },
        None => (pair, None),
    };
    if same_text(key, "cloakroom.profile") {
        identity.profile = entry;
    } else if same_text(key, "user.name") {
        identity.name = entry;
    } else if same_text(key, "user.email") {
        identity.email = entry;
    }
    identity
}

/// Splits the stream of `git config --null --list --show-scope
/// --show-origin`. One record per entry, three NUL terminated fields:
///
/// ```text
/// scope NUL origin NUL key LF value NUL
/// ```
///
/// The last record for a key overwrites the earlier ones, which is git's own
/// resolution order, so what comes out is what git would use. A key written
/// with no value at all is legal, and its record has no LF. Such a key reads
/// as unset, which is what it is to anything wanting a string.
pub fn parse_identity(bytes: &[u8]) -> (result: Result<EffectiveIdentity, String>)
    ensures
        is_identity(result, identity_in(bytes@)),
{
    let mut identity = EffectiveIdentity { profile: None, name: None, email: None };
    let fields = split_bytes(bytes, 0);
    let ghost all = contents(fields@);
    let mut i: usize = 0;
    assert(all.skip(0) == all);
    while i < fields.len() && fields[i].len() > 0
        invariant
            i <= fields@.len(),
            all == contents(fields@),
            identity_in(bytes@) == after_fields(identity@, all.skip(i as int)),
        decreases fields@.len() - i,
    {
        let ghost rest = all.skip(i as int);
        assert(rest[0] == fields@[i as int]@);
        if fields.len() - i == 1 {
            return Err("git config output has no origin".to_owned());
        }
        if fields.len() - i == 2 {
            return Err("git config output has no key and value".to_owned());
        }
        assert(rest[1] == fields@[i + 1]@);
        assert(rest[2] == fields@[i + 2]@);
        if fields[i + 2].len() == 0 {
            return Err("git config output has an empty key".to_owned());
        }
        identity = record(
            identity,
            lossy(fields[i]).as_str(),
            lossy(fields[i + 1]).as_str(),
            lossy(fields[i + 2]).as_str(),
        );
        assert(rest.skip(3) == all.skip(i + 3));
        i = i + 3;
    }
    assert(i < fields@.len() ==> all.skip(i as int)[0] == fields@[i as int]@);
    Ok(identity)
}

/// The arguments that ask git for every value it resolves, with scope and
/// origin. One listing, so that all values come from the same resolution.
pub open spec fn identity_arguments() -> Seq<Seq<char>> {
    seq!["config"@, "--null"@, "--list"@, "--show-scope"@, "--show-origin"@]
}

/// The arguments that ask git for every value it resolves, with scope and
/// origin. One listing, so that all values come from the same resolution.
pub fn ask_identity() -> (result: Vec<String>)
    ensures
        texts(result@) == identity_arguments(),
{
    let result = owned_words(&["config", "--null", "--list", "--show-scope", "--show-origin"]);
    assert(texts(result@) == identity_arguments());
    result
}

/// The identity that a run of `git config --list` reports.
pub open spec fn reported_identity(output: GitOutput) -> Result<IdentityView, Seq<char>> {
    if output.success {
        identity_in(output.stdout@)
    } else {
        Err("git config --list failed: "@ + complaint(output))
    }
}

/// Resolves the selected profile, name, and email from one listing rather
/// than three, so the three values are guaranteed to come from the same
/// resolution.
pub fn effective_identity(output: &GitOutput) -> (result: Result<EffectiveIdentity, String>)
    ensures
        is_identity(result, reported_identity(*output)),
{
    if !output.success {
        return Err("git config --list failed: ".to_owned().concat(stderr_of(output).as_str()));
    }
    parse_identity(output.stdout.as_slice())
}

////////////////////////////////////////////////////////////////////////////
// Laws

/// One entry as git lists it.
pub struct Record {
    pub scope: Seq<u8>,
    pub origin: Seq<u8>,
    /// The key and, behind a newline, the value.
    pub pair: Seq<u8>,
}

/// Whether git can list the record: no field holds a NUL byte, and neither the
/// scope nor the pair is empty.
pub open spec fn proper(record: Record) -> bool {
    &&& record.scope.len() > 0
    &&& record.pair.len() > 0
    &&& !record.scope.contains(0)
    &&& !record.origin.contains(0)
    &&& !record.pair.contains(0)
}

/// The fields of records, three to each.
pub open spec fn fields_of(records: Seq<Record>) -> Seq<Seq<u8>>
    decreases records.len(),
{
    if records.len() == 0 {
        seq![]
    } else {
        seq![records[0].scope, records[0].origin, records[0].pair] + fields_of(records.skip(1))
    }
}

/// The listing that git prints of records.
pub open spec fn listing(records: Seq<Record>) -> Seq<u8> {
    terminated(fields_of(records), 0)
}

/// What the last record for `key` says of it: its value with where it came
/// from, or None for a key without a value. None as well where no record is
/// for `key`.
pub open spec fn last_value(records: Seq<Record>, key: Seq<char>) -> Option<EntryView>
    decreases records.len(),
{
    if records.len() == 0 {
        None
    } else if key_of(lossy_text(records.last().pair)) == key {
        entry_of(
            lossy_text(records.last().scope),
            lossy_text(records.last().origin),
            lossy_text(records.last().pair),
        )
    } else {
        last_value(records.drop_last(), key)
    }
}

/// `identity` after the records.
spec fn after_records(identity: IdentityView, records: Seq<Record>) -> IdentityView
    decreases records.len(),
{
    if records.len() == 0 {
        identity
    } else {
        after_records(
            recorded(
                identity,
                lossy_text(records[0].scope),
                lossy_text(records[0].origin),
                lossy_text(records[0].pair),
            ),
            records.skip(1),
        )
    }
}

proof fn lemma_fields_are_records(identity: IdentityView, records: Seq<Record>)
    requires
        forall|i: int| 0 <= i < records.len() ==> proper(#[trigger] records[i]),
    ensures
        after_fields(identity, fields_of(records).push(seq![])) == Ok::<IdentityView, Seq<char>>(
            after_records(identity, records),
        ),
        forall|i: int|
            0 <= i < fields_of(records).len() ==> !(#[trigger] fields_of(records)[i]).contains(0),
    decreases records.len(),
{
    let fields = fields_of(records);
    if records.len() == 0 {
        assert(fields.push(seq![])[0].len() == 0);
    } else {
        let first = records[0];
        let rest = records.skip(1);
        assert(proper(first));
        assert forall|i: int| 0 <= i < rest.len() implies proper(#[trigger] rest[i]) by {
            assert(rest[i] == records[i + 1]);
        }
        let next = recorded(
            identity,
            lossy_text(first.scope),
            lossy_text(first.origin),
            lossy_text(first.pair),
        );
        lemma_fields_are_records(next, rest);
        let stream = fields.push(seq![]);
        assert(stream[0] == first.scope && stream[1] == first.origin && stream[2] == first.pair);
        assert(stream.skip(3) == fields_of(rest).push(seq![]));
        assert forall|i: int| 0 <= i < fields.len() implies !(#[trigger] fields[i]).contains(0) by {
            if i >= 3 {
                assert(fields[i] == fields_of(rest)[i - 3]);
            }
        }
    }
}

proof fn lemma_last_record(identity: IdentityView, records: Seq<Record>)
    requires
        records.len() > 0,
    ensures
        after_records(identity, records) == recorded(
            after_records(identity, records.drop_last()),
            lossy_text(records.last().scope),
            lossy_text(records.last().origin),
            lossy_text(records.last().pair),
        ),
    decreases records.len(),
{
    let next = recorded(
        identity,
        lossy_text(records[0].scope),
        lossy_text(records[0].origin),
        lossy_text(records[0].pair),
    );
    if records.len() == 1 {
        assert(after_records(next, records.skip(1)) == next);
        assert(after_records(identity, records.drop_last()) == identity);
    } else {
        lemma_last_record(next, records.skip(1));
        assert(records.skip(1).drop_last() == records.drop_last().skip(1));
        assert(records.drop_last()[0] == records[0]);
    }
}

proof fn lemma_last_values(records: Seq<Record>)
    ensures
        after_records(nothing(), records) == (IdentityView {
            profile: last_value(records, "cloakroom.profile"@),
            name: last_value(records, "user.name"@),
            email: last_value(records, "user.email"@),
        }),
    decreases records.len(),
{
    if records.len() > 0 {
        lemma_last_values(records.drop_last());
        lemma_last_record(nothing(), records);
        reveal_strlit("cloakroom.profile");
        reveal_strlit("user.name");
        reveal_strlit("user.email");
        assert("cloakroom.profile"@.len() == 17);
        assert("user.name"@.len() == 9);
        assert("user.email"@.len() == 10);
    }
}

/// What is read from a listing is what git resolves: for each of the three
/// keys the last record decides, whatever other records stand around it. A
/// key without a value reads as unset, and overwrites an earlier record like
/// any other last value.
pub proof fn law_the_last_record_wins(records: Seq<Record>)
    requires
        forall|i: int| 0 <= i < records.len() ==> proper(#[trigger] records[i]),
    ensures
        identity_in(listing(records)) == Ok::<IdentityView, Seq<char>>(
            IdentityView {
                profile: last_value(records, "cloakroom.profile"@),
                name: last_value(records, "user.name"@),
                email: last_value(records, "user.email"@),
            },
        ),
{
    lemma_fields_are_records(nothing(), records);
    lemma_pieces_of_terminated(fields_of(records), 0u8);
    lemma_last_values(records);
}

/// A record for another key changes nothing, with or without a value, and
/// neither does any record that a later one for the same key follows.
pub proof fn law_overwritten_records_do_not_count(
    records: Seq<Record>,
    key: Seq<char>,
    index: int,
)
    requires
        0 <= index < records.len(),
        key_of(lossy_text(records[index].pair)) == key,
        forall|j: int|
            index < j < records.len() ==> key_of(lossy_text((#[trigger] records[j]).pair)) != key,
    ensures
        last_value(records, key) == entry_of(
            lossy_text(records[index].scope),
            lossy_text(records[index].origin),
            lossy_text(records[index].pair),
        ),
    decreases records.len(),
{
    if index < records.len() - 1 {
        let rest = records.drop_last();
        assert(key_of(lossy_text(records[records.len() - 1].pair)) != key);
        assert forall|j: int| index < j < rest.len() implies key_of(
            lossy_text((#[trigger] rest[j]).pair),
        ) != key by {
            assert(rest[j] == records[j]);
        }
        law_overwritten_records_do_not_count(rest, key, index);
    }
}

/// A listing that breaks off inside a record is an error, never a report on
/// the part before.
pub proof fn law_incomplete_records_are_rejected(records: Seq<Record>, last: Record)
    requires
        forall|i: int| 0 <= i < records.len() ==> proper(#[trigger] records[i]),
        last.scope.len() > 0,
        !last.scope.contains(0),
        !last.origin.contains(0),
    ensures
        identity_in(listing(records) + last.scope) is Err,
        identity_in(listing(records) + terminated(seq![last.scope], 0)) is Err,
        identity_in(listing(records) + terminated(seq![last.scope, last.origin], 0)) is Err,
{
    let scope = last.scope;
    let origin = last.origin;
    lemma_fields_are_records(nothing(), records);
    lemma_pieces_behind(fields_of(records), scope);
    lemma_only_piece(scope, 0u8);
    lemma_breaks_off(nothing(), records, seq![scope]);

    lemma_pieces_behind(fields_of(records), terminated(seq![scope], 0u8));
    assert forall|i: int| 0 <= i < seq![scope].len() implies !(#[trigger] seq![scope][i]).contains(
        0,
    ) by {}
    lemma_pieces_of_terminated(seq![scope], 0u8);
    lemma_breaks_off(nothing(), records, seq![scope].push(seq![]));

    let both = seq![scope, origin];
    lemma_pieces_behind(fields_of(records), terminated(both, 0u8));
    assert forall|i: int| 0 <= i < both.len() implies !(#[trigger] both[i]).contains(0) by {}
    lemma_pieces_of_terminated(both, 0u8);
    lemma_breaks_off(nothing(), records, both.push(seq![]));
}

proof fn lemma_pieces_behind(fields: Seq<Seq<u8>>, rest: Seq<u8>)
    requires
        forall|i: int| 0 <= i < fields.len() ==> !(#[trigger] fields[i]).contains(0),
    ensures
        pieces(terminated(fields, 0) + rest, 0) == fields + pieces(rest, 0),
    decreases fields.len(),
{
    if fields.len() == 0 {
        assert(terminated(fields, 0) + rest == rest);
        assert(fields + pieces(rest, 0) == pieces(rest, 0));
    } else {
        let tail = fields.skip(1);
        assert forall|i: int| 0 <= i < tail.len() implies !(#[trigger] tail[i]).contains(0) by {
            assert(tail[i] == fields[i + 1]);
        }
        lemma_pieces_behind(tail, rest);
        lemma_first_piece(fields[0], 0u8, terminated(tail, 0u8) + rest);
        assert(terminated(fields, 0) + rest == fields[0] + seq![0u8] + (terminated(tail, 0)
            + rest));
        assert(seq![fields[0]] + (tail + pieces(rest, 0)) == fields + pieces(rest, 0));
    }
}

proof fn lemma_breaks_off(identity: IdentityView, records: Seq<Record>, last: Seq<Seq<u8>>)
    requires
        forall|i: int| 0 <= i < records.len() ==> proper(#[trigger] records[i]),
        0 < last.len() <= 3,
        last[0].len() > 0,
        last.len() == 3 ==> last[2].len() == 0,
    ensures
        after_fields(identity, fields_of(records) + last) is Err,
    decreases records.len(),
{
    let stream = fields_of(records) + last;
    if records.len() == 0 {
        assert(stream == last);
    } else {
        let first = records[0];
        let rest = records.skip(1);
        assert(proper(first));
        assert forall|i: int| 0 <= i < rest.len() implies proper(#[trigger] rest[i]) by {
            assert(rest[i] == records[i + 1]);
        }
        let next = recorded(
            identity,
            lossy_text(first.scope),
            lossy_text(first.origin),
            lossy_text(first.pair),
        );
        lemma_breaks_off(next, rest, last);
        assert(stream[0] == first.scope && stream[1] == first.origin && stream[2] == first.pair);
        assert(stream.skip(3) == fields_of(rest) + last);
    }
}

/// The record of a value that git found in a file.
pub open spec fn file_record(
    scope: Seq<char>,
    path: Seq<char>,
    key: Seq<char>,
    value: Seq<char>,
) -> Record {
    Record {
        scope: encode_utf8(scope),
        origin: encode_utf8("file:"@ + path),
        pair: encode_utf8(key + seq!['\n'] + value),
    }
}

/// A value from a file is read back whole, newlines included, with the scope
/// and the path of the file.
pub proof fn law_values_are_read_back(
    scope: Seq<char>,
    path: Seq<char>,
    key: Seq<char>,
    value: Seq<char>,
)
    requires
        !key.contains('\n'),
    ensures
        ({
            let record = file_record(scope, path, key, value);
            &&& key_of(lossy_text(record.pair)) == key
            &&& entry_of(
                lossy_text(record.scope),
                lossy_text(record.origin),
                lossy_text(record.pair),
            ) == Some(EntryView { scope, origin: Some(path), value })
        }),
{
    lemma_lossy_reads_back(scope);
    lemma_lossy_reads_back("file:"@ + path);
    lemma_lossy_reads_back(key + seq!['\n'] + value);
    lemma_cut_at(key, '\n', value);
    assert(("file:"@ + path).skip("file:"@.len() as int) == path);
    assert("file:"@.is_prefix_of("file:"@ + path));
}

/// Whether a record is for `key`: it is the key alone, or the key, a newline
/// and a value.
pub open spec fn about(record: Record, key: Seq<char>) -> bool {
    let pair = lossy_text(record.pair);
    pair == key || (pair.len() > key.len() && pair.take(key.len() as int) == key
        && pair[key.len() as int] == '\n')
}

proof fn lemma_about(record: Record, key: Seq<char>)
    requires
        !key.contains('\n'),
    ensures
        about(record, key) <==> key_of(lossy_text(record.pair)) == key,
{
    let pair = lossy_text(record.pair);
    law_cutting_finds_the_first_separator(pair, '\n');
    if pair.len() > key.len() && pair.take(key.len() as int) == key && pair[key.len() as int]
        == '\n' {
        lemma_cut_at(key, '\n', pair.skip(key.len() as int + 1));
        assert(pair == key + seq!['\n'] + pair.skip(key.len() as int + 1));
    }
    if let Some((head, tail)) = cut(pair, '\n') {
        assert(pair.take(head.len() as int) == head);
        assert(pair[head.len() as int] == '\n');
        if pair == key {
            assert(key.contains(pair[head.len() as int]));
        }
    }
}

/// What a record says of its key: the value behind the newline, whole, with
/// its scope, and with the path of its file if the origin is one. A key
/// without a newline has no value.
pub open spec fn stated(record: Record, key: Seq<char>) -> Option<EntryView> {
    let pair = lossy_text(record.pair);
    let origin = lossy_text(record.origin);
    if pair.len() > key.len() {
        Some(
            EntryView {
                scope: lossy_text(record.scope),
                origin: if origin.len() >= 5 && origin.take(5) == seq!['f', 'i', 'l', 'e', ':'] {
                    Some(origin.skip(5))
                } else {
                    None
                },
                value: pair.skip(key.len() as int + 1),
            },
        )
    } else {
        None
    }
}

proof fn lemma_stated(record: Record, key: Seq<char>)
    requires
        !key.contains('\n'),
        about(record, key),
    ensures
        entry_of(
            lossy_text(record.scope),
            lossy_text(record.origin),
            lossy_text(record.pair),
        ) == stated(record, key),
{
    let pair = lossy_text(record.pair);
    let origin = lossy_text(record.origin);
    reveal_strlit("file:");
    assert("file:"@ == seq!['f', 'i', 'l', 'e', ':']);
    if pair.len() > key.len() {
        assert(pair == key + seq!['\n'] + pair.skip(key.len() as int + 1));
        lemma_cut_at(key, '\n', pair.skip(key.len() as int + 1));
    } else {
        law_cutting_finds_the_first_separator(pair, '\n');
    }
    if origin.len() >= 5 && origin.take(5) == "file:"@ {
        assert("file:"@.is_prefix_of(origin));
    } else if "file:"@.is_prefix_of(origin) {
        assert(origin.take(5) == "file:"@);
    }
}

proof fn lemma_nothing_stated(records: Seq<Record>, key: Seq<char>)
    requires
        !key.contains('\n'),
        forall|i: int| 0 <= i < records.len() ==> !about(#[trigger] records[i], key),
    ensures
        last_value(records, key) is None,
    decreases records.len(),
{
    if records.len() > 0 {
        let rest = records.drop_last();
        lemma_about(records[records.len() - 1], key);
        assert forall|i: int| 0 <= i < rest.len() implies !about(#[trigger] rest[i], key) by {
            assert(rest[i] == records[i]);
        }
        lemma_nothing_stated(rest, key);
    }
}

proof fn lemma_last_stated(records: Seq<Record>, key: Seq<char>, index: int)
    requires
        !key.contains('\n'),
        0 <= index < records.len(),
        about(records[index], key),
        forall|j: int| index < j < records.len() ==> !about(#[trigger] records[j], key),
    ensures
        last_value(records, key) == stated(records[index], key),
{
    lemma_about(records[index], key);
    assert forall|j: int| index < j < records.len() implies key_of(
        lossy_text((#[trigger] records[j]).pair),
    ) != key by {
        lemma_about(records[j], key);
    }
    law_overwritten_records_do_not_count(records, key, index);
    lemma_stated(records[index], key);
}

/// What is found under a key in an identity.
pub open spec fn found(identity: IdentityView, key: Seq<char>) -> Option<EntryView> {
    if key == "user.name"@ {
        identity.name
    } else if key == "user.email"@ {
        identity.email
    } else {
        identity.profile
    }
}

/// Each of the three values is what the last record for its key states, and is
/// unset where there is no such record. Keys are compared whole and letter by
/// letter.
pub proof fn law_identities_are_read_record_by_record(
    records: Seq<Record>,
    key: Seq<char>,
    index: int,
)
    requires
        forall|i: int| 0 <= i < records.len() ==> proper(#[trigger] records[i]),
        key == "user.name"@ || key == "user.email"@ || key == "cloakroom.profile"@,
    ensures
        identity_in(listing(records)) matches Ok(identity) && {
            &&& (forall|i: int| 0 <= i < records.len() ==> !about(#[trigger] records[i], key))
                ==> found(identity, key) is None
            &&& 0 <= index < records.len() && about(records[index], key) && (forall|j: int|
                index < j < records.len() ==> !about(#[trigger] records[j], key)) ==> found(
                identity,
                key,
            ) == stated(records[index], key)
        },
{
    law_the_last_record_wins(records);
    reveal_strlit("cloakroom.profile");
    reveal_strlit("user.name");
    reveal_strlit("user.email");
    assert("cloakroom.profile"@.len() == 17);
    assert("user.name"@.len() == 9);
    assert("user.email"@.len() == 10);
    assert(!key.contains('\n'));
    if forall|i: int| 0 <= i < records.len() ==> !about(#[trigger] records[i], key) {
        lemma_nothing_stated(records, key);
    }
    if 0 <= index < records.len() && about(records[index], key) && (forall|j: int|
        index < j < records.len() ==> !about(#[trigger] records[j], key)) {
        lemma_last_stated(records, key, index);
    }
}

/// Git's listing is believed only if git ended well; otherwise the error
/// quotes what it printed.
pub proof fn law_failed_listings_are_errors(output: GitOutput)
    ensures
        output.success ==> reported_identity(output) == identity_in(output.stdout@),
        !output.success ==> reported_identity(output) == Err::<IdentityView, Seq<char>>(
            "git config --list failed: "@ + trimmed(lossy_text(output.stderr@)),
        ),
{
}

/// How a listing is read: it ends where a scope should stand and there is
/// none; a record that breaks off is an error that says what is missing; and
/// a whole record is taken before the rest is read on.
pub proof fn law_listings_are_read_field_by_field(identity: IdentityView, fields: Seq<Seq<u8>>)
    ensures
        fields.len() == 0 || fields[0].len() == 0 ==> after_fields(identity, fields) == Ok::<
            IdentityView,
            Seq<char>,
        >(identity),
        fields.len() == 1 && fields[0].len() > 0 ==> after_fields(identity, fields) == Err::<
            IdentityView,
            Seq<char>,
        >("git config output has no origin"@),
        fields.len() == 2 && fields[0].len() > 0 ==> after_fields(identity, fields) == Err::<
            IdentityView,
            Seq<char>,
        >("git config output has no key and value"@),
        fields.len() >= 3 && fields[0].len() > 0 && fields[2].len() == 0 ==> after_fields(
            identity,
            fields,
        ) == Err::<IdentityView, Seq<char>>("git config output has an empty key"@),
        fields.len() >= 3 && fields[0].len() > 0 && fields[2].len() > 0 ==> after_fields(
            identity,
            fields.take(3),
        ) is Ok && after_fields(identity, fields) == after_fields(
            after_fields(identity, fields.take(3))->Ok_0,
            fields.skip(3),
        ),
        forall|bytes: Seq<u8>| #[trigger] identity_in(bytes) == after_fields(
            IdentityView { profile: None, name: None, email: None },
            pieces(bytes, 0),
        ),
{
    if fields.len() >= 3 {
        let first = fields.take(3);
        assert(first[0] == fields[0] && first[1] == fields[1] && first[2] == fields[2]);
        let next = recorded(
            identity,
            lossy_text(fields[0]),
            lossy_text(fields[1]),
            lossy_text(fields[2]),
        );
        assert(first.skip(3).len() == 0);
        assert(after_fields(next, first.skip(3)) == Ok::<IdentityView, Seq<char>>(next));
    }
}

}
