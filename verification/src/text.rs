//! Text as a sequence of characters: the handful of operations that reading
//! git's output and writing reports need, each with its meaning stated.

use vstd::prelude::*;
use vstd::string::StrSliceExecFns;
use vstd::string::StringExecFns;
use vstd::utf8::{
    decode_utf8, encode_utf8, encode_utf8_decode_utf8, encode_utf8_valid_utf8, valid_utf8,
};

verus! {

/// The texts that a list of strings holds.
pub open spec fn texts(list: Seq<String>) -> Seq<Seq<char>> {
    list.map_values(|text: String| text@)
}

/// The contents of a list of byte strings.
pub open spec fn contents(list: Seq<&[u8]>) -> Seq<Seq<u8>> {
    list.map_values(|bytes: &[u8]| bytes@)
}

/// The text an optional string holds.
pub open spec fn optional_text(text: Option<String>) -> Option<Seq<char>> {
    match text {
        Some(text) => Some(text@),
        None => None,
    }
}

////////////////////////////////////////////////////////////////////////////
// Reading bytes as text, and quoting

/// What `String::from_utf8_lossy` makes of bytes that are not UTF-8.
pub uninterp spec fn repaired_text(bytes: Seq<u8>) -> Seq<char>;

/// `bytes` read as text: the text they encode, or a repaired one if they are
/// not UTF-8.
pub open spec fn lossy_text(bytes: Seq<u8>) -> Seq<char> {
    if valid_utf8(bytes) {
        decode_utf8(bytes)
    } else {
        repaired_text(bytes)
    }
}

/// Calls `String::from_utf8_lossy`. Trusted: bytes that are valid UTF-8 come
/// back as exactly the text they encode, and what others come back as depends
/// on the bytes alone.
#[verifier::external_body]
pub(crate) fn lossy(bytes: &[u8]) -> (result: String)
    ensures
        valid_utf8(bytes@) ==> result@ == decode_utf8(bytes@),
        !valid_utf8(bytes@) ==> result@ == repaired_text(bytes@),
{
    String::from_utf8_lossy(bytes).into_owned()
}

/// `encode_utf8` loses nothing: reading the bytes back gives the text.
pub proof fn lemma_lossy_reads_back(text: Seq<char>)
    ensures
        lossy_text(encode_utf8(text)) == text,
{
    encode_utf8_valid_utf8(text);
    encode_utf8_decode_utf8(text);
}

/// Calls `str::from_utf8`. Trusted: it succeeds exactly on valid UTF-8, and
/// then yields the text that the bytes encode.
#[verifier::external_body]
pub(crate) fn utf8(bytes: &[u8]) -> (result: Option<String>)
    ensures
        result is Some <==> valid_utf8(bytes@),
        result matches Some(text) ==> text@ == decode_utf8(bytes@),
{
    match std::str::from_utf8(bytes) {
        Ok(text) => Some(text.to_owned()),
        Err(_) => None,
    }
}

/// What formatting a text with `{:?}` yields: the text in double quotes, with
/// the escapes that `Debug` for `str` chooses.
pub uninterp spec fn debug_text(text: Seq<char>) -> Seq<char>;

/// Formats with `Debug` for `str`. Trusted: the result depends on the text
/// alone.
#[verifier::external_body]
pub(crate) fn debug(text: &str) -> (result: String)
    ensures
        result@ == debug_text(text@),
{
    format!("{:?}", text)
}

////////////////////////////////////////////////////////////////////////////
// Characters

/// `String::push`. Trusted: it appends the one character.
pub assume_specification[ std::string::String::push ](string: &mut String, c: char)
    ensures
        final(string)@ == old(string)@.push(c),
;

/// Whether `c` is white space in the sense of the Unicode property of that
/// name.
pub open spec fn white_space(c: char) -> bool {
    ||| '\u{9}' <= c <= '\u{d}'
    ||| c == ' '
    ||| c == '\u{85}'
    ||| c == '\u{a0}'
    ||| c == '\u{1680}'
    ||| '\u{2000}' <= c <= '\u{200a}'
    ||| c == '\u{2028}'
    ||| c == '\u{2029}'
    ||| c == '\u{202f}'
    ||| c == '\u{205f}'
    ||| c == '\u{3000}'
}

/// Decides `white_space`.
pub fn is_white_space(c: char) -> (result: bool)
    ensures
        result == white_space(c),
{
    ('\u{9}' <= c && c <= '\u{d}') || c == ' ' || c == '\u{85}' || c == '\u{a0}' || c == '\u{1680}'
        || ('\u{2000}' <= c && c <= '\u{200a}') || c == '\u{2028}' || c == '\u{2029}' || c
        == '\u{202f}' || c == '\u{205f}' || c == '\u{3000}'
}

/// The characters of a text, one by one.
pub fn characters(text: &str) -> (result: Vec<char>)
    ensures
        result@ == text@,
{
    let mut result: Vec<char> = Vec::new();
    for c in it: text.chars()
        invariant
            it.seq() == text@,
            result@ == text@.take(it.index()),
    {
        assert(text@.take(it.index()).push(c) == text@.take(it.index() + 1));
        result.push(c);
    }
    assert(text@.take(text@.len() as int) == text@);
    result
}

/// Whether `wanted` occurs in `text`.
pub fn has_char(text: &str, wanted: char) -> (result: bool)
    ensures
        result == text@.contains(wanted),
{
    for c in it: text.chars()
        invariant
            it.seq() == text@,
            forall|i: int| 0 <= i < it.index() ==> text@[i] != wanted,
    {
        if c == wanted {
            assert(text@[it.index()] == wanted);
            return true;
        }
    }
    false
}

////////////////////////////////////////////////////////////////////////////
// Trimming

/// `text` without the white space it starts with.
pub open spec fn trimmed_start(text: Seq<char>) -> Seq<char>
    decreases text.len(),
{
    if text.len() > 0 && white_space(text[0]) {
        trimmed_start(text.skip(1))
    } else {
        text
    }
}

/// `text` without the white space it ends with.
pub open spec fn trimmed_end(text: Seq<char>) -> Seq<char>
    decreases text.len(),
{
    if text.len() > 0 && white_space(text.last()) {
        trimmed_end(text.drop_last())
    } else {
        text
    }
}

/// `text` without white space at either end.
pub open spec fn trimmed(text: Seq<char>) -> Seq<char> {
    trimmed_end(trimmed_start(text))
}

/// Removes white space from the end.
pub fn trim_end(text: &str) -> (result: &str)
    ensures
        result@ == trimmed_end(text@),
{
    let chars = characters(text);
    let mut end: usize = chars.len();
    assert(text@.take(end as int) == text@);
    while end > 0 && is_white_space(chars[end - 1])
        invariant
            chars@ == text@,
            end <= chars@.len(),
            trimmed_end(text@) == trimmed_end(text@.take(end as int)),
        decreases end,
    {
        assert(text@.take(end as int).drop_last() == text@.take(end - 1));
        end = end - 1;
    }
    assert(end > 0 ==> text@.take(end as int).last() == chars@[end - 1]);
    text.substring_char(0, end)
}

/// Removes white space from both ends.
pub fn trim(text: &str) -> (result: &str)
    ensures
        result@ == trimmed(text@),
{
    let chars = characters(text);
    let mut start: usize = 0;
    assert(text@.skip(0) == text@);
    while start < chars.len() && is_white_space(chars[start])
        invariant
            chars@ == text@,
            start <= chars@.len(),
            trimmed_start(text@) == trimmed_start(text@.skip(start as int)),
        decreases chars@.len() - start,
    {
        assert(text@.skip(start as int).skip(1) == text@.skip(start + 1));
        assert(text@.skip(start as int)[0] == chars@[start as int]);
        start = start + 1;
    }
    assert(start < chars@.len() ==> text@.skip(start as int)[0] == chars@[start as int]);
    assert(text@.subrange(start as int, text@.len() as int) == text@.skip(start as int));
    trim_end(text.substring_char(start, chars.len()))
}

////////////////////////////////////////////////////////////////////////////
// Cutting

/// What follows `prefix` in `text`, if `text` starts with it.
pub open spec fn without_prefix(text: Seq<char>, prefix: Seq<char>) -> Option<Seq<char>> {
    if prefix.is_prefix_of(text) {
        Some(text.skip(prefix.len() as int))
    } else {
        None
    }
}

/// What precedes `suffix` in `text`, if `text` ends with it.
pub open spec fn without_suffix(text: Seq<char>, suffix: Seq<char>) -> Option<Seq<char>> {
    if suffix.is_suffix_of(text) {
        Some(text.take(text.len() - suffix.len()))
    } else {
        None
    }
}

/// Whether `needle` stands in `text` at `at`.
pub open spec fn stands_at(text: Seq<char>, needle: Seq<char>, at: int) -> bool {
    &&& 0 <= at <= text.len() - needle.len()
    &&& text.subrange(at, at + needle.len()) == needle
}

/// Whether `needle` stands anywhere in `text`.
pub open spec fn occurs(text: Seq<char>, needle: Seq<char>) -> bool {
    exists|at: int| #[trigger] stands_at(text, needle, at)
}

/// Decides `stands_at` on characters.
fn matches_at(chars: &Vec<char>, needle: &Vec<char>, at: usize) -> (result: bool)
    requires
        at + needle@.len() <= chars@.len(),
    ensures
        result == stands_at(chars@, needle@, at as int),
{
    let length = chars.len();
    let mut i: usize = 0;
    while i < needle.len()
        invariant
            at + needle@.len() <= length == chars@.len(),
            i <= needle@.len(),
            forall|k: int| 0 <= k < i ==> chars@[at + k] == needle@[k],
        decreases needle@.len() - i,
    {
        if chars[at + i] != needle[i] {
            assert(chars@.subrange(at as int, at + needle@.len())[i as int] != needle@[i as int]);
            return false;
        }
        i = i + 1;
    }
    assert(chars@.subrange(at as int, at + needle@.len()) == needle@);
    true
}

/// Removes `prefix` from the start.
pub fn strip_prefix<'a>(text: &'a str, prefix: &str) -> (result: Option<&'a str>)
    ensures
        result is Some == without_prefix(text@, prefix@) is Some,
        result matches Some(rest) ==> Some(rest@) == without_prefix(text@, prefix@),
{
    let chars = characters(text);
    let wanted = characters(prefix);
    if wanted.len() <= chars.len() && matches_at(&chars, &wanted, 0) {
        assert(text@.take(prefix@.len() as int) == prefix@);
        assert(text@.skip(prefix@.len() as int) == text@.subrange(
            prefix@.len() as int,
            text@.len() as int,
        ));
        Some(text.substring_char(wanted.len(), chars.len()))
    } else {
        proof {
            if prefix@.is_prefix_of(text@) {
                assert(text@.subrange(0, prefix@.len() as int) == prefix@);
                assert(stands_at(text@, prefix@, 0));
            }
        }
        None
    }
}

/// Removes `suffix` from the end.
pub fn strip_suffix<'a>(text: &'a str, suffix: &str) -> (result: Option<&'a str>)
    ensures
        result is Some == without_suffix(text@, suffix@) is Some,
        result matches Some(rest) ==> Some(rest@) == without_suffix(text@, suffix@),
{
    let chars = characters(text);
    let wanted = characters(suffix);
    if wanted.len() <= chars.len() && matches_at(&chars, &wanted, chars.len() - wanted.len()) {
        Some(text.substring_char(0, chars.len() - wanted.len()))
    } else {
        proof {
            if suffix@.is_suffix_of(text@) {
                assert(stands_at(text@, suffix@, text@.len() - suffix@.len()));
            }
        }
        None
    }
}

/// Decides `occurs`.
pub fn contains_text(text: &str, needle: &str) -> (result: bool)
    ensures
        result == occurs(text@, needle@),
{
    let chars = characters(text);
    let wanted = characters(needle);
    if chars.len() < wanted.len() {
        return false;
    }
    let last = chars.len() - wanted.len();
    let mut at: usize = 0;
    while at < last
        invariant
            chars@ == text@,
            wanted@ == needle@,
            last == text@.len() - needle@.len(),
            at <= last,
            forall|k: int| 0 <= k < at ==> !#[trigger] stands_at(text@, needle@, k),
        decreases last - at,
    {
        if matches_at(&chars, &wanted, at) {
            return true;
        }
        at = at + 1;
    }
    matches_at(&chars, &wanted, at)
}

/// The position of the first `wanted` in `list`, or its length.
pub open spec fn first_index<A>(list: Seq<A>, wanted: A) -> nat
    decreases list.len(),
{
    if list.len() == 0 || list[0] == wanted {
        0
    } else {
        1 + first_index(list.skip(1), wanted)
    }
}

/// `first_index` is the least position that holds `wanted`.
pub proof fn lemma_first_index<A>(list: Seq<A>, wanted: A, at: int)
    requires
        0 <= at <= list.len(),
        forall|k: int| 0 <= k < at ==> list[k] != wanted,
        at < list.len() ==> list[at] == wanted,
    ensures
        first_index(list, wanted) == at,
    decreases list.len(),
{
    if at > 0 {
        lemma_first_index(list.skip(1), wanted, at - 1);
    }
}

/// The parts of `text` before and after the first `separator`.
pub open spec fn cut(text: Seq<char>, separator: char) -> Option<(Seq<char>, Seq<char>)> {
    let at = first_index(text, separator) as int;
    if at < text.len() {
        Some((text.take(at), text.skip(at + 1)))
    } else {
        None
    }
}

/// The part of `text` before the first `separator`, or all of it.
pub open spec fn up_to(text: Seq<char>, separator: char) -> Seq<char> {
    match cut(text, separator) {
        Some((before, _)) => before,
        None => text,
    }
}

/// Splits at the first `separator`.
pub fn split_once<'a>(text: &'a str, separator: char) -> (result: Option<(&'a str, &'a str)>)
    ensures
        result is Some == cut(text@, separator) is Some,
        result matches Some((before, after)) ==> cut(text@, separator) == Some((before@, after@)),
{
    let chars = characters(text);
    let mut at: usize = 0;
    while at < chars.len() && chars[at] != separator
        invariant
            at <= chars@.len(),
            forall|k: int| 0 <= k < at ==> chars@[k] != separator,
        decreases chars@.len() - at,
    {
        at = at + 1;
    }
    proof {
        lemma_first_index(text@, separator, at as int);
    }
    if at < chars.len() {
        assert(text@.take(at as int) == text@.subrange(0, at as int));
        assert(text@.skip(at + 1) == text@.subrange(at + 1, text@.len() as int));
        Some((text.substring_char(0, at), text.substring_char(at + 1, chars.len())))
    } else {
        None
    }
}

/// The part before the first `separator`, or the whole text.
pub fn before(text: &str, separator: char) -> (result: &str)
    ensures
        result@ == up_to(text@, separator),
{
    match split_once(text, separator) {
        Some((head, _)) => head,
        None => text,
    }
}

/// A stretch without the separator ends where the separator stands.
pub proof fn lemma_cut_at(head: Seq<char>, separator: char, tail: Seq<char>)
    requires
        !head.contains(separator),
    ensures
        cut(head + seq![separator] + tail, separator) == Some((head, tail)),
{
    let text = head + seq![separator] + tail;
    assert forall|k: int| 0 <= k < head.len() implies text[k] != separator by {
        assert(text[k] == head[k]);
    }
    lemma_first_index(text, separator, head.len() as int);
    assert(text.take(head.len() as int) == head);
    assert(text.skip(head.len() as int + 1) == tail);
}

/// `first_index` holds `wanted`, unless nothing does, and nothing before it
/// does.
pub proof fn lemma_first_index_is_first<A>(list: Seq<A>, wanted: A)
    ensures
        first_index(list, wanted) <= list.len(),
        first_index(list, wanted) < list.len() ==> list[first_index(list, wanted) as int]
            == wanted,
        forall|k: int| 0 <= k < first_index(list, wanted) ==> list[k] != wanted,
    decreases list.len(),
{
    if list.len() > 0 && list[0] != wanted {
        let rest = list.skip(1);
        lemma_first_index_is_first(rest, wanted);
        assert forall|k: int| 0 <= k < first_index(list, wanted) implies list[k] != wanted by {
            if k > 0 {
                assert(rest[k - 1] == list[k]);
            }
        }
    }
}

/// A stretch without the separator is kept whole.
pub proof fn lemma_up_to_keeps(head: Seq<char>, tail: Seq<char>, separator: char)
    requires
        !head.contains(separator),
    ensures
        up_to(head + tail, separator) == head + up_to(tail, separator),
{
    let text = head + tail;
    let at = first_index(tail, separator) as int;
    lemma_first_index_is_first(tail, separator);
    assert forall|k: int| 0 <= k < head.len() + at implies text[k] != separator by {
        if k < head.len() {
            assert(text[k] == head[k]);
        } else {
            assert(text[k] == tail[k - head.len()]);
        }
    }
    lemma_first_index(text, separator, head.len() + at);
    if at < tail.len() {
        assert(text.take(head.len() + at) == head + tail.take(at));
    }
}

/// Trimming reaches no further than to what is not white space.
pub proof fn lemma_trimmed_keeps(head: Seq<char>, tail: Seq<char>)
    requires
        head.len() > 0,
        !white_space(head[0]),
        !white_space(head.last()),
    ensures
        trimmed(head + tail) == head + trimmed_end(tail),
    decreases tail.len(),
{
    assert((head + tail)[0] == head[0]);
    if tail.len() == 0 {
        assert(head + tail == head);
        assert(head + trimmed_end(tail) == head);
    } else if white_space(tail.last()) {
        lemma_trimmed_keeps(head, tail.drop_last());
        assert((head + tail).drop_last() == head + tail.drop_last());
        assert((head + tail).last() == tail.last());
        assert((head + tail.drop_last())[0] == head[0]);
    } else {
        assert((head + tail).last() == tail.last());
    }
}

/// Trimming at the end leaves the start.
pub proof fn lemma_trimmed_end_is_prefix(text: Seq<char>)
    ensures
        trimmed_end(text).is_prefix_of(text),
    decreases text.len(),
{
    if text.len() > 0 && white_space(text.last()) {
        lemma_trimmed_end_is_prefix(text.drop_last());
    }
}

////////////////////////////////////////////////////////////////////////////
// Fields of a byte stream

/// The stretches of `list` between occurrences of `separator`: one more than
/// there are separators.
pub open spec fn pieces<A>(list: Seq<A>, separator: A) -> Seq<Seq<A>>
    decreases list.len(),
{
    let at = first_index(list, separator) as int;
    if 0 <= at < list.len() {
        seq![list.take(at)] + pieces(list.skip(at + 1), separator)
    } else {
        seq![list]
    }
}

/// Each of `fields` with `terminator` behind it, one after the other.
pub open spec fn terminated<A>(fields: Seq<Seq<A>>, terminator: A) -> Seq<A>
    decreases fields.len(),
{
    if fields.len() == 0 {
        seq![]
    } else {
        fields[0] + seq![terminator] + terminated(fields.skip(1), terminator)
    }
}

/// A stretch without the separator is the first piece of what it starts.
pub proof fn lemma_first_piece<A>(first: Seq<A>, separator: A, rest: Seq<A>)
    requires
        !first.contains(separator),
    ensures
        pieces(first + seq![separator] + rest, separator) == seq![first] + pieces(rest, separator),
{
    let list = first + seq![separator] + rest;
    let at = first.len() as int;
    assert forall|k: int| 0 <= k < at implies list[k] != separator by {
        assert(list[k] == first[k]);
    }
    lemma_first_index(list, separator, at);
    assert(list.take(at) == first);
    assert(list.skip(at + 1) == rest);
}

/// A stretch without the separator is its only piece.
pub proof fn lemma_only_piece<A>(list: Seq<A>, separator: A)
    requires
        !list.contains(separator),
    ensures
        pieces(list, separator) == seq![list],
{
    lemma_first_index(list, separator, list.len() as int);
}

/// Terminated fields are read back by splitting, with one empty piece behind
/// the last terminator.
pub proof fn lemma_pieces_of_terminated<A>(fields: Seq<Seq<A>>, terminator: A)
    requires
        forall|i: int| 0 <= i < fields.len() ==> !(#[trigger] fields[i]).contains(terminator),
    ensures
        pieces(terminated(fields, terminator), terminator) == fields.push(seq![]),
    decreases fields.len(),
{
    if fields.len() == 0 {
        lemma_only_piece(terminated(fields, terminator), terminator);
        assert(fields.push(seq![]) == seq![Seq::<A>::empty()]);
    } else {
        let rest = fields.skip(1);
        assert forall|i: int| 0 <= i < rest.len() implies !(#[trigger] rest[i]).contains(
            terminator,
        ) by {
            assert(rest[i] == fields[i + 1]);
        }
        lemma_pieces_of_terminated(rest, terminator);
        lemma_first_piece(fields[0], terminator, terminated(rest, terminator));
        assert(seq![fields[0]] + rest.push(seq![]) == fields.push(seq![]));
    }
}

/// Splits `bytes` at every `separator`.
pub fn split_bytes<'a>(bytes: &'a [u8], separator: u8) -> (result: Vec<&'a [u8]>)
    ensures
        contents(result@) == pieces(bytes@, separator),
{
    let mut result: Vec<&'a [u8]> = Vec::new();
    let mut start: usize = 0;
    let mut at: usize = 0;
    assert(bytes@.skip(0) == bytes@);
    assert(contents(result@) + pieces(bytes@, separator) == pieces(bytes@, separator));
    while at < bytes.len()
        invariant
            start <= at <= bytes@.len(),
            forall|k: int| start <= k < at ==> bytes@[k] != separator,
            contents(result@) + pieces(bytes@.skip(start as int), separator) == pieces(
                bytes@,
                separator,
            ),
        decreases bytes@.len() - at,
    {
        if bytes[at] == separator {
            let ghost rest = bytes@.skip(start as int);
            let ghost before = result@;
            proof {
                lemma_first_index(rest, separator, at - start);
                assert(rest.take(at - start) == bytes@.subrange(start as int, at as int));
                assert(rest.skip(at - start + 1) == bytes@.skip(at + 1));
            }
            let piece = vstd::slice::slice_subrange(bytes, start, at);
            result.push(piece);
            proof {
                assert(contents(result@) == contents(before).push(piece@));
                assert(contents(result@) + pieces(bytes@.skip(at + 1), separator) == contents(
                    before,
                ) + (seq![piece@] + pieces(bytes@.skip(at + 1), separator)));
            }
            start = at + 1;
        }
        at = at + 1;
    }
    let ghost rest = bytes@.skip(start as int);
    let ghost before = result@;
    proof {
        lemma_first_index(rest, separator, at - start);
        assert(rest == bytes@.subrange(start as int, at as int));
    }
    result.push(vstd::slice::slice_subrange(bytes, start, bytes.len()));
    assert(contents(result@) == contents(before) + seq![rest]);
    result
}

/// Whether two byte strings hold the same bytes.
pub fn same_bytes(left: &[u8], right: &[u8]) -> (result: bool)
    ensures
        result == (left@ == right@),
{
    if left.len() != right.len() {
        return false;
    }
    let mut i: usize = 0;
    while i < left.len()
        invariant
            left@.len() == right@.len(),
            i <= left@.len(),
            forall|k: int| 0 <= k < i ==> left@[k] == right@[k],
        decreases left@.len() - i,
    {
        if left[i] != right[i] {
            return false;
        }
        i = i + 1;
    }
    assert(left@ == right@);
    true
}

/// Whether two texts are equal.
pub fn same_text(left: &str, right: &str) -> (result: bool)
    ensures
        result == (left@ == right@),
{
    proof {
        vstd::utf8::encode_utf8_decode_utf8(left@);
        vstd::utf8::encode_utf8_decode_utf8(right@);
    }
    same_bytes(left.as_bytes(), right.as_bytes())
}

////////////////////////////////////////////////////////////////////////////
// Joining

/// The texts of `list` in order, with `separator` between them.
pub open spec fn joined(list: Seq<Seq<char>>, separator: Seq<char>) -> Seq<char>
    decreases list.len(),
{
    if list.len() == 0 {
        seq![]
    } else if list.len() == 1 {
        list[0]
    } else {
        joined(list.drop_last(), separator) + separator + list.last()
    }
}

/// Joins texts with a separator between them.
pub fn join(list: &Vec<String>, separator: &str) -> (result: String)
    ensures
        result@ == joined(texts(list@), separator@),
{
    let ghost all = texts(list@);
    let mut result = String::new();
    let mut i: usize = 0;
    assert(all.take(0).len() == 0);
    while i < list.len()
        invariant
            i <= list@.len(),
            all == texts(list@),
            result@ == joined(all.take(i as int), separator@),
        decreases list@.len() - i,
    {
        proof {
            let longer = all.take(i + 1);
            assert(longer.drop_last() == all.take(i as int));
            assert(longer.last() == list@[i as int]@);
        }
        if i > 0 {
            result.append(separator);
        }
        result.append(list[i].as_str());
        i = i + 1;
        assert(result@ == joined(all.take(i as int), separator@));
    }
    assert(all.take(i as int) == all);
    result
}

/// A copy of a list of strings.
pub(crate) fn copy_texts(list: &Vec<String>) -> (result: Vec<String>)
    ensures
        texts(result@) == texts(list@),
{
    let mut result: Vec<String> = Vec::new();
    let mut i: usize = 0;
    while i < list.len()
        invariant
            i <= list@.len(),
            result@ == list@.take(i as int),
        decreases list@.len() - i,
    {
        result.push(list[i].clone());
        i = i + 1;
        assert(result@ == list@.take(i as int));
    }
    assert(list@.take(i as int) == list@);
    result
}

/// The texts that a list of slices holds.
pub open spec fn words(list: Seq<&str>) -> Seq<Seq<char>> {
    list.map_values(|word: &str| word@)
}

/// The words as strings of their own.
pub(crate) fn owned_words(list: &[&str]) -> (result: Vec<String>)
    ensures
        texts(result@) == words(list@),
{
    let mut result: Vec<String> = Vec::new();
    let mut i: usize = 0;
    while i < list.len()
        invariant
            i <= list@.len(),
            texts(result@) == words(list@).take(i as int),
        decreases list@.len() - i,
    {
        let ghost earlier = result@;
        let word = list[i].to_owned();
        result.push(word);
        i = i + 1;
        assert(texts(result@) == texts(earlier).push(word@));
        assert(words(list@).take(i as int) == words(list@).take(i - 1).push(word@));
    }
    assert(words(list@).take(i as int) == words(list@));
    result
}

////////////////////////////////////////////////////////////////////////////
// Laws

/// A text occurs in another exactly if that one is made of something, the
/// text, and something behind it.
pub proof fn law_what_occurs(text: Seq<char>, needle: Seq<char>)
    ensures
        occurs(text, needle) <==> exists|before: Seq<char>, after: Seq<char>|
            text == #[trigger] (before + needle + after),
{
    if occurs(text, needle) {
        let at = choose|at: int| #[trigger] stands_at(text, needle, at);
        let before = text.take(at);
        let after = text.skip(at + needle.len());
        assert(text == before + needle + after);
    }
    if exists|before: Seq<char>, after: Seq<char>| text == #[trigger] (before + needle + after) {
        let (before, after) = choose|before: Seq<char>, after: Seq<char>|
            text == #[trigger] (before + needle + after);
        let at = before.len() as int;
        assert(text.subrange(at, at + needle.len()) == needle);
        assert(stands_at(text, needle, at));
    }
}

/// What stands before and behind the first separator, if there is one: the
/// part before holds none, and together they make up the text.
pub proof fn law_cutting_finds_the_first_separator(text: Seq<char>, separator: char)
    ensures
        cut(text, separator) is Some <==> text.contains(separator),
        cut(text, separator) matches Some((before, after)) ==> {
            &&& !before.contains(separator)
            &&& text == before + seq![separator] + after
        },
{
    let at = first_index(text, separator) as int;
    lemma_first_index_is_first(text, separator);
    if at < text.len() {
        let before = text.take(at);
        assert forall|i: int| 0 <= i < before.len() implies before[i] != separator by {
            assert(before[i] == text[i]);
        }
        assert(text == before + seq![separator] + text.skip(at + 1));
        assert(text.contains(text[at]));
    }
}

/// White space is what Unicode gives that property, by code point.
pub proof fn law_white_space_by_code(c: char)
    ensures
        white_space(c) <==> {
            let code = c as int;
            ||| 0x9 <= code <= 0xd
            ||| code == 0x20 || code == 0x85 || code == 0xa0 || code == 0x1680
            ||| 0x2000 <= code <= 0x200a
            ||| code == 0x2028 || code == 0x2029 || code == 0x202f || code == 0x205f
            ||| code == 0x3000
        },
{
}

/// Whether a text is made of white space alone.
pub open spec fn blank_text(text: Seq<char>) -> bool {
    forall|i: int| 0 <= i < text.len() ==> white_space(#[trigger] text[i])
}

/// Trimming takes white space away from the end, all of it and nothing else.
pub proof fn law_trimming_the_end(text: Seq<char>)
    ensures
        exists|after: Seq<char>| blank_text(after) && text == #[trigger] (trimmed_end(text) + after),
        trimmed_end(text).len() > 0 ==> !white_space(trimmed_end(text).last()),
    decreases text.len(),
{
    if text.len() > 0 && white_space(text.last()) {
        law_trimming_the_end(text.drop_last());
        let after = choose|after: Seq<char>|
            blank_text(after) && text.drop_last() == #[trigger] (trimmed_end(text.drop_last())
                + after);
        let longer = after.push(text.last());
        assert forall|i: int| 0 <= i < longer.len() implies white_space(#[trigger] longer[i]) by {
            if i < after.len() {
                assert(white_space(after[i]));
            }
        }
        assert(text == text.drop_last().push(text.last()));
        assert(trimmed_end(text) == trimmed_end(text.drop_last()));
        assert(text.drop_last().push(text.last()) == trimmed_end(text) + longer);
    } else {
        assert(text == trimmed_end(text) + Seq::<char>::empty());
    }
}

/// Trimming takes white space away from the start, all of it and nothing else.
pub proof fn law_trimming_the_start(text: Seq<char>)
    ensures
        exists|before: Seq<char>|
            blank_text(before) && text == #[trigger] (before + trimmed_start(text)),
        trimmed_start(text).len() > 0 ==> !white_space(trimmed_start(text)[0]),
    decreases text.len(),
{
    if text.len() > 0 && white_space(text[0]) {
        law_trimming_the_start(text.skip(1));
        let before = choose|before: Seq<char>|
            blank_text(before) && text.skip(1) == #[trigger] (before + trimmed_start(text.skip(1)));
        let longer = seq![text[0]] + before;
        assert forall|i: int| 0 <= i < longer.len() implies white_space(#[trigger] longer[i]) by {
            if i > 0 {
                assert(white_space(before[i - 1]));
            }
        }
        assert(text == seq![text[0]] + text.skip(1));
        assert(trimmed_start(text) == trimmed_start(text.skip(1)));
        assert(seq![text[0]] + text.skip(1) == longer + trimmed_start(text));
    } else {
        assert(text == Seq::<char>::empty() + trimmed_start(text));
    }
}

/// Trimming takes white space away from both ends, all of it and nothing else.
pub proof fn law_trimming_both_ends(text: Seq<char>)
    ensures
        exists|before: Seq<char>, after: Seq<char>|
            blank_text(before) && blank_text(after) && text == #[trigger] (before + trimmed(text)
                + after),
        trimmed(text).len() > 0 ==> !white_space(trimmed(text)[0]) && !white_space(
            trimmed(text).last(),
        ),
{
    let tail = trimmed_start(text);
    law_trimming_the_start(text);
    law_trimming_the_end(tail);
    let before = choose|before: Seq<char>|
        blank_text(before) && text == #[trigger] (before + trimmed_start(text));
    let after = choose|after: Seq<char>|
        blank_text(after) && tail == #[trigger] (trimmed_end(tail) + after);
    assert(text == before + trimmed(text) + after);
    assert(trimmed(text).len() > 0 ==> trimmed(text)[0] == tail[0]);
}

/// What stands behind a prefix or before a suffix is the rest of the text.
pub proof fn law_prefixes_and_suffixes(text: Seq<char>, part: Seq<char>, rest: Seq<char>)
    ensures
        without_prefix(text, part) == Some(rest) <==> text == part + rest,
        without_suffix(text, part) == Some(rest) <==> text == rest + part,
{
    if text == part + rest {
        assert(part.is_prefix_of(text));
        assert(text.skip(part.len() as int) == rest);
    }
    if without_prefix(text, part) == Some(rest) {
        assert(text == part + rest);
    }
    if text == rest + part {
        assert(part.is_suffix_of(text));
        assert(text.take(text.len() - part.len()) == rest);
    }
    if without_suffix(text, part) == Some(rest) {
        assert(text == rest + part);
    }
}

/// Joined texts stand in their order, with the separator between each two.
pub proof fn law_joined_texts_stand_in_order(
    left: Seq<Seq<char>>,
    right: Seq<Seq<char>>,
    separator: Seq<char>,
    only: Seq<char>,
)
    requires
        left.len() > 0,
        right.len() > 0,
    ensures
        joined(seq![only], separator) == only,
        joined(left + right, separator) == joined(left, separator) + separator + joined(
            right,
            separator,
        ),
    decreases right.len(),
{
    let both = left + right;
    if right.len() == 1 {
        assert(both.drop_last() == left);
        assert(both.last() == right[0]);
    } else {
        law_joined_texts_stand_in_order(left, right.drop_last(), separator, only);
        assert(both.drop_last() == left + right.drop_last());
        assert(both.last() == right.last());
        assert(joined(both, separator) == joined(left, separator) + separator + joined(
            right,
            separator,
        ));
    }
}

/// Bytes are read as the text they encode, and repaired only if they encode
/// none.
pub proof fn law_bytes_read_as_text(bytes: Seq<u8>, text: Seq<char>)
    ensures
        valid_utf8(bytes) ==> lossy_text(bytes) == decode_utf8(bytes),
        !valid_utf8(bytes) ==> lossy_text(bytes) == repaired_text(bytes),
        lossy_text(encode_utf8(text)) == text,
{
    lemma_lossy_reads_back(text);
}

}
