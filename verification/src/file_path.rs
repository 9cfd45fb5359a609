//! Paths of the file system as the bytes they are, since nothing makes them
//! UTF-8. Paths are Unix paths: `/` separates their names, and a path is
//! absolute if it starts with one; drive letters and backslashes mean nothing.
//! Paths are compared by what their components say, so `a//b/.` and `a/b` are
//! one path.

use vstd::prelude::*;
use vstd::string::StrSliceExecFns;
use vstd::utf8::{decode_utf8, encode_utf8, is_ascii_chars, is_ascii_chars_encode_utf8, valid_utf8};

use crate::text::{
    contents, first_index, lemma_first_index_is_first, lemma_first_piece, lemma_only_piece, lossy,
    lossy_text, pieces, same_bytes, split_bytes, utf8,
};

verus! {

/// The byte that separates the names of a path.
pub const SEPARATOR: u8 = 47;

/// The byte that stands, alone, for the directory itself.
pub const DOT: u8 = 46;

/// A path of the file system.
#[derive(Debug, PartialEq, Eq)]
pub struct FilePath {
    pub bytes: Vec<u8>,
}

impl View for FilePath {
    type V = Seq<u8>;

    open spec fn view(&self) -> Seq<u8> {
        self.bytes@
    }
}

/// The path that an optional value holds.
pub open spec fn optional_path(path: Option<FilePath>) -> Option<Seq<u8>> {
    match path {
        Some(path) => Some(path@),
        None => None,
    }
}

/// Whether `path` starts at the root.
pub open spec fn rooted(path: Seq<u8>) -> bool {
    path.len() > 0 && path[0] == SEPARATOR
}

/// Whether the stretch at position `index` between separators says anything:
/// an empty one does not, and neither does a dot that others precede.
pub open spec fn names_something(index: int, stretch: Seq<u8>) -> bool {
    stretch.len() > 0 && !(index > 0 && stretch == seq![DOT])
}

/// The stretches that say something, in order.
pub open spec fn significant(stretches: Seq<Seq<u8>>) -> Seq<Seq<u8>>
    decreases stretches.len(),
{
    if stretches.len() == 0 {
        seq![]
    } else if names_something(stretches.len() - 1, stretches.last()) {
        significant(stretches.drop_last()).push(stretches.last())
    } else {
        significant(stretches.drop_last())
    }
}

/// The names that lead to what `path` names.
pub open spec fn names(path: Seq<u8>) -> Seq<Seq<u8>> {
    significant(pieces(path, SEPARATOR))
}

/// Whether two paths say the same, component by component.
pub open spec fn same_path(left: Seq<u8>, right: Seq<u8>) -> bool {
    rooted(left) == rooted(right) && names(left) == names(right)
}

/// `base` followed by `relative`. A `relative` path that starts at the root
/// stands by itself.
pub open spec fn joined(base: Seq<u8>, relative: Seq<u8>) -> Seq<u8> {
    if rooted(relative) {
        relative
    } else if base.len() == 0 || base.last() == SEPARATOR {
        base + relative
    } else {
        base.push(SEPARATOR) + relative
    }
}

/// The text of a path, if it is UTF-8.
pub open spec fn path_text(path: Seq<u8>) -> Option<Seq<char>> {
    if valid_utf8(path) {
        Some(decode_utf8(path))
    } else {
        None
    }
}

impl FilePath {
    /// The path that `text` spells.
    pub fn from_text(text: &str) -> (result: Self)
        ensures
            result@ == encode_utf8(text@),
    {
        FilePath { bytes: text.as_bytes_vec() }
    }

    /// The same path once more.
    pub fn copy(&self) -> (result: Self)
        ensures
            result@ == self@,
    {
        let mut bytes: Vec<u8> = Vec::new();
        bytes.extend_from_slice(self.bytes.as_slice());
        assert(bytes@ == self@);
        FilePath { bytes }
    }

    /// This path followed by `relative`.
    pub fn join(&self, relative: &str) -> (result: Self)
        ensures
            result@ == joined(self@, encode_utf8(relative@)),
    {
        let tail = relative.as_bytes();
        let absolute = tail.len() > 0 && tail[0] == SEPARATOR;
        let mut bytes: Vec<u8> = Vec::new();
        if !absolute {
            bytes.extend_from_slice(self.bytes.as_slice());
            assert(bytes@ == self@);
            let length = bytes.len();
            if length > 0 && bytes[length - 1] != SEPARATOR {
                bytes.push(SEPARATOR);
            }
        }
        let ghost head = bytes@;
        bytes.extend_from_slice(tail);
        assert(bytes@ == head + tail@);
        assert(absolute ==> head + tail@ == tail@);
        FilePath { bytes }
    }

    /// The text of this path, if it is UTF-8.
    pub fn to_text(&self) -> (result: Option<String>)
        ensures
            result is Some == path_text(self@) is Some,
            result matches Some(text) ==> Some(text@) == path_text(self@),
    {
        utf8(self.bytes.as_slice())
    }

    /// This path for a reader. Bytes that are not UTF-8 are replaced.
    pub fn display(&self) -> (result: String)
        ensures
            result@ == lossy_text(self@),
    {
        lossy(self.bytes.as_slice())
    }

    /// Whether this path starts at the root.
    pub fn is_absolute(&self) -> (result: bool)
        ensures
            result == rooted(self@),
    {
        self.bytes.len() > 0 && self.bytes[0] == SEPARATOR
    }

    /// The names that lead to what this path names.
    pub fn names(&self) -> (result: Vec<&[u8]>)
        ensures
            contents(result@) == names(self@),
    {
        let stretches = split_bytes(self.bytes.as_slice(), SEPARATOR);
        let ghost all = contents(stretches@);
        let mut result: Vec<&[u8]> = Vec::new();
        let mut i: usize = 0;
        assert(all.take(0).len() == 0);
        while i < stretches.len()
            invariant
                i <= stretches@.len(),
                all == contents(stretches@),
                contents(result@) == significant(all.take(i as int)),
            decreases stretches@.len() - i,
        {
            let stretch = stretches[i];
            let dot = stretch.len() == 1 && stretch[0] == DOT;
            assert(dot == (stretch@ == seq![DOT])) by {
                if dot {
                    assert(stretch@ == seq![DOT]);
                }
            }
            proof {
                let longer = all.take(i + 1);
                assert(longer.drop_last() == all.take(i as int));
                assert(longer.last() == stretch@);
            }
            if stretch.len() > 0 && !(i > 0 && dot) {
                let ghost before = result@;
                result.push(stretch);
                assert(contents(result@) == contents(before).push(stretch@));
            }
            i = i + 1;
        }
        assert(all.take(i as int) == all);
        result
    }

    /// Whether this path says the same as `other`.
    pub fn is_same(&self, other: &FilePath) -> (result: bool)
        ensures
            result == same_path(self@, other@),
    {
        if self.is_absolute() != other.is_absolute() {
            return false;
        }
        let left = self.names();
        let right = other.names();
        same_lists(&left, &right, left.len(), right.len())
    }
}

/// Whether the first `left_count` byte strings of one list are the first
/// `right_count` of another.
pub(crate) fn same_lists(
    left: &Vec<&[u8]>,
    right: &Vec<&[u8]>,
    left_count: usize,
    right_count: usize,
) -> (result: bool)
    requires
        left_count <= left@.len(),
        right_count <= right@.len(),
    ensures
        result == (contents(left@).take(left_count as int) == contents(right@).take(
            right_count as int,
        )),
        left_count == left@.len() ==> contents(left@).take(left_count as int) == contents(left@),
        right_count == right@.len() ==> contents(right@).take(right_count as int) == contents(
            right@,
        ),
{
    let ghost a = contents(left@);
    let ghost b = contents(right@);
    assert(left_count == left@.len() ==> a.take(left_count as int) == a);
    assert(right_count == right@.len() ==> b.take(right_count as int) == b);
    if left_count != right_count {
        assert(a.take(left_count as int).len() != b.take(right_count as int).len());
        return false;
    }
    let mut i: usize = 0;
    while i < left_count
        invariant
            i <= left_count == right_count,
            left_count <= left@.len(),
            right_count <= right@.len(),
            a == contents(left@),
            b == contents(right@),
            forall|k: int| 0 <= k < i ==> #[trigger] a[k] == b[k],
        decreases left_count - i,
    {
        if !same_bytes(left[i], right[i]) {
            assert(a.take(left_count as int)[i as int] != b.take(right_count as int)[i as int]);
            return false;
        }
        i = i + 1;
    }
    assert(a.take(left_count as int) == b.take(right_count as int));
    true
}

////////////////////////////////////////////////////////////////////////////
// Laws

/// Whether `name` is the name of one thing in a directory.
pub open spec fn single_name(name: Seq<u8>) -> bool {
    name.len() > 0 && !name.contains(SEPARATOR) && name != seq![DOT]
}

/// A separator parts the pieces of what stands on either side.
proof fn lemma_pieces_join(left: Seq<u8>, right: Seq<u8>)
    ensures
        pieces(left + seq![SEPARATOR] + right, SEPARATOR) == pieces(left, SEPARATOR) + pieces(
            right,
            SEPARATOR,
        ),
    decreases left.len(),
{
    let at = first_index(left, SEPARATOR) as int;
    lemma_first_index_is_first(left, SEPARATOR);
    if at < left.len() {
        let head = left.take(at);
        let tail = left.skip(at + 1);
        assert(!head.contains(SEPARATOR));
        lemma_pieces_join(tail, right);
        lemma_first_piece(head, SEPARATOR, tail + seq![SEPARATOR] + right);
        assert(left == head + seq![SEPARATOR] + tail);
        assert(left + seq![SEPARATOR] + right == head + seq![SEPARATOR] + (tail + seq![SEPARATOR]
            + right));
        assert(seq![head] + (pieces(tail, SEPARATOR) + pieces(right, SEPARATOR)) == seq![head]
            + pieces(tail, SEPARATOR) + pieces(right, SEPARATOR));
    } else {
        assert(!left.contains(SEPARATOR));
        lemma_first_piece(left, SEPARATOR, right);
        lemma_only_piece(left, SEPARATOR);
    }
}

/// Joining a name to a path leads one step further: the names of the path,
/// then that name, whether or not the path ends with a separator.
pub proof fn law_joining_adds_one_name(base: Seq<u8>, name: Seq<u8>)
    requires
        single_name(name),
    ensures
        names(joined(base, name)) == names(base).push(name),
        rooted(joined(base, name)) == rooted(base),
{
    assert(!rooted(name)) by {
        if rooted(name) {
            assert(name.contains(name[0]));
        }
    }
    lemma_only_piece(name, SEPARATOR);
    let last = seq![name];
    if base.len() == 0 {
        assert(base + name == name);
        lemma_only_piece(base, SEPARATOR);
        assert(significant(seq![base].drop_last()).len() == 0);
        assert(names(base) == Seq::<Seq<u8>>::empty());
        assert(significant(last.drop_last()) == Seq::<Seq<u8>>::empty());
        assert(last.last() == name);
        assert(significant(last) == Seq::<Seq<u8>>::empty().push(name));
    } else if base.last() == SEPARATOR {
        let stem = base.drop_last();
        let empty = Seq::<u8>::empty();
        lemma_pieces_join(stem, name);
        lemma_pieces_join(stem, empty);
        lemma_only_piece(empty, SEPARATOR);
        assert(stem + seq![SEPARATOR] + name == base + name);
        assert(stem + seq![SEPARATOR] + empty == base);
        let known = pieces(stem, SEPARATOR);
        assert((known + seq![empty]).drop_last() == known);
        assert((known + seq![empty]).last() == empty);
        assert((known + last).drop_last() == known);
        assert((known + last).last() == name);
        assert((base + name)[0] == base[0]);
        lemma_some_piece(stem);
    } else {
        lemma_pieces_join(base, name);
        assert(base.push(SEPARATOR) + name == base + seq![SEPARATOR] + name);
        let known = pieces(base, SEPARATOR);
        assert((known + last).drop_last() == known);
        assert((known + last).last() == name);
        assert((base.push(SEPARATOR) + name)[0] == base[0]);
        lemma_some_piece(base);
    }
}

/// There is always a piece.
proof fn lemma_some_piece(list: Seq<u8>)
    ensures
        pieces(list, SEPARATOR).len() > 0,
{
}

/// A plain name of more than one character is a single one.
pub proof fn lemma_plain_name(text: Seq<char>)
    requires
        text.len() > 1,
        is_ascii_chars(text),
        !text.contains('/'),
    ensures
        single_name(encode_utf8(text)),
{
    is_ascii_chars_encode_utf8(text);
    let bytes = encode_utf8(text);
    assert forall|i: int| 0 <= i < bytes.len() implies bytes[i] != SEPARATOR by {
        assert(text[i] as u8 == bytes[i]);
        assert(text.contains(text[i]));
    }
}

/// Saying the same is an equivalence of paths.
pub proof fn law_same_path_is_an_equivalence(a: Seq<u8>, b: Seq<u8>, c: Seq<u8>)
    ensures
        same_path(a, a),
        same_path(a, b) == same_path(b, a),
        same_path(a, b) && same_path(b, c) ==> same_path(a, c),
{
}

/// What the names of a path are: a stretch without separators is one name if
/// it holds anything, and behind a separator it adds one unless it is empty or
/// a lone dot. So `..` is a name like any other, and doubled or trailing
/// separators say nothing. A path starts at the root exactly if it starts with
/// a separator.
pub proof fn law_names_stand_between_separators(base: Seq<u8>, stretch: Seq<u8>)
    requires
        forall|i: int| 0 <= i < stretch.len() ==> #[trigger] stretch[i] != 47,
    ensures
        names(stretch) == (if stretch.len() == 0 {
            seq![]
        } else {
            seq![stretch]
        }),
        names(base + seq![47u8] + stretch) == (if stretch.len() == 0 || stretch == seq![46u8] {
            names(base)
        } else {
            names(base).push(stretch)
        }),
        !rooted(stretch),
        rooted(base + seq![47u8] + stretch) <==> base.len() == 0 || base[0] == 47,
        rooted(base) <==> base.len() > 0 && base[0] == 47,
{
    let alone = seq![stretch];
    assert(!stretch.contains(SEPARATOR));
    lemma_only_piece(stretch, SEPARATOR);
    assert(alone.drop_last() == Seq::<Seq<u8>>::empty());
    assert(significant(alone.drop_last()) == Seq::<Seq<u8>>::empty());
    assert(alone.last() == stretch);
    assert(significant(alone) == (if stretch.len() == 0 {
        Seq::<Seq<u8>>::empty()
    } else {
        Seq::<Seq<u8>>::empty().push(stretch)
    }));
    lemma_pieces_join(base, stretch);
    lemma_some_piece(base);
    let known = pieces(base, SEPARATOR);
    assert((known + alone).drop_last() == known);
    assert((known + alone).last() == stretch);
    let whole = base + seq![47u8] + stretch;
    assert(whole[0] == (if base.len() == 0 {
        47u8
    } else {
        base[0]
    }));
}

/// Two paths are one exactly if they start alike and lead through the same
/// names.
pub proof fn law_same_paths_lead_through_the_same_names(left: Seq<u8>, right: Seq<u8>)
    ensures
        same_path(left, right) <==> (left.len() > 0 && left[0] == 47) == (right.len() > 0
            && right[0] == 47) && names(left) == names(right),
{
}

/// Joining puts one separator between two paths unless the first is empty or
/// ends with one; a second path that starts at the root stands by itself.
pub proof fn law_joining_puts_one_separator(base: Seq<u8>, relative: Seq<u8>)
    ensures
        relative.len() > 0 && relative[0] == 47 ==> joined(base, relative) == relative,
        relative.len() == 0 || relative[0] != 47 ==> joined(base, relative) == base + (
        if base.len() == 0 || base[base.len() - 1] == 47 {
            Seq::<u8>::empty()
        } else {
            seq![47u8]
        }) + relative,
{
    let empty = Seq::<u8>::empty();
    assert(base + empty + relative == base + relative);
    assert(base.push(SEPARATOR) == base + seq![47u8]);
}

/// A path has a text exactly if it is UTF-8, and its text is what it encodes.
pub proof fn law_the_text_of_a_path(path: Seq<u8>, text: Seq<char>)
    ensures
        path_text(path) == Some(text) <==> valid_utf8(path) && decode_utf8(path) == text,
        path_text(encode_utf8(text)) == Some(text),
{
    vstd::utf8::encode_utf8_valid_utf8(text);
    vstd::utf8::encode_utf8_decode_utf8(text);
}

}
