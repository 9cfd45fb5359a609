//! What to write, what to leave alone and what to remove in the generated
//! directory.

use vstd::prelude::*;
use vstd::utf8::encode_utf8;

use crate::order::{sort_names, sorted};
use crate::text::{optional_text, same_bytes, same_text, strip_suffix, texts, without_suffix};

verus! {

/// What became of writing a file.
#[derive(Debug, Clone, Copy, PartialEq, Eq, Structural)]
pub enum WriteOutcome {
    /// The contents differed and the file was replaced.
    Wrote,
    /// The file already held these bytes and was left alone.
    Unchanged,
}

/// What writing `contents` to a file that holds `existing` comes to.
pub open spec fn write_outcome(existing: Option<Seq<u8>>, contents: Seq<char>) -> WriteOutcome {
    if existing == Some(encode_utf8(contents)) {
        WriteOutcome::Unchanged
    } else {
        WriteOutcome::Wrote
    }
}

/// The bytes of a file, if it can be read.
pub open spec fn optional_bytes(bytes: Option<Vec<u8>>) -> Option<Seq<u8>> {
    match bytes {
        Some(bytes) => Some(bytes@),
        None => None,
    }
}

/// Whether a file has to be written at all. A write is skipped entirely when
/// the bytes already match, so repeated applies leave modification times
/// alone and can report "unchanged" honestly. `existing` is None for a file
/// that cannot be read.
pub fn decide_write(existing: &Option<Vec<u8>>, contents: &str) -> (result: WriteOutcome)
    ensures
        result == write_outcome(optional_bytes(*existing), contents@),
{
    match existing {
        Some(bytes) => if same_bytes(bytes.as_slice(), contents.as_bytes()) {
            WriteOutcome::Unchanged
        } else {
            WriteOutcome::Wrote
        },
        None => WriteOutcome::Wrote,
    }
}

/// Whether the file of this name in the directory of the objects is an object
/// whose digest is not in `keep`. Only `*.gitconfig` files are; anything else
/// in the directory, and a name that is not UTF-8, is not cloakroom's to
/// delete.
pub open spec fn stale(name: Option<Seq<char>>, keep: Seq<Seq<char>>) -> bool {
    match name {
        Some(name) => match without_suffix(name, ".gitconfig"@) {
            Some(digest) => !keep.contains(digest),
            None => false,
        },
        None => false,
    }
}

/// Whether `wanted` is one of `list`.
pub fn contains_name(list: &Vec<String>, wanted: &str) -> (result: bool)
    ensures
        result == texts(list@).contains(wanted@),
{
    let ghost all = texts(list@);
    let mut i: usize = 0;
    while i < list.len()
        invariant
            i <= list@.len(),
            all == texts(list@),
            forall|k: int| 0 <= k < i ==> #[trigger] all[k] != wanted@,
        decreases list@.len() - i,
    {
        assert(all[i as int] == list@[i as int]@);
        if same_text(list[i].as_str(), wanted) {
            return true;
        }
        i = i + 1;
    }
    false
}

/// Decides whether pruning removes a file. None stands for a name that is not
/// UTF-8.
pub fn is_stale(name: &Option<String>, keep: &Vec<String>) -> (result: bool)
    ensures
        result == stale(optional_text(*name), texts(keep@)),
{
    match name {
        Some(name) => match strip_suffix(name.as_str(), ".gitconfig") {
            Some(digest) => !contains_name(keep, digest),
            None => false,
        },
        None => false,
    }
}

/// The stale ones among the names in a directory.
pub open spec fn stale_names(names: Seq<Option<String>>, keep: Seq<Seq<char>>) -> Seq<Seq<char>>
    decreases names.len(),
{
    if names.len() == 0 {
        seq![]
    } else {
        let earlier = stale_names(names.drop_last(), keep);
        match optional_text(names.last()) {
            Some(name) if stale(Some(name), keep) => earlier.push(name),
            _ => earlier,
        }
    }
}

/// Which files to remove from the directory of the objects: those whose
/// digest is no longer in the manifest, sorted by name. `names` is what the
/// directory lists.
///
/// Remove them only after the new root is in place. Until then the old root is
/// still live and the objects it names must still exist.
pub fn prune_objects(names: &Vec<Option<String>>, keep: &Vec<String>) -> (result: Vec<String>)
    ensures
        sorted(texts(result@)),
        texts(result@).to_multiset() == stale_names(names@, texts(keep@)).to_multiset(),
{
    let mut removed: Vec<String> = Vec::new();
    let mut i: usize = 0;
    assert(names@.take(0).len() == 0);
    assert(texts(removed@) == stale_names(names@.take(0), texts(keep@)));
    while i < names.len()
        invariant
            i <= names@.len(),
            texts(removed@) == stale_names(names@.take(i as int), texts(keep@)),
        decreases names@.len() - i,
    {
        let name = &names[i];
        proof {
            let longer = names@.take(i + 1);
            assert(longer.drop_last() == names@.take(i as int));
            assert(longer.last() == name);
        }
        if is_stale(name, keep) {
            if let Some(text) = name {
                let ghost earlier = removed@;
                removed.push(text.clone());
                assert(texts(removed@) == texts(earlier).push(text@));
            }
        }
        i = i + 1;
    }
    assert(names@.take(i as int) == names@);
    sort_names(removed)
}

////////////////////////////////////////////////////////////////////////////
// Laws

/// A file is left alone exactly if it holds the contents already. So writing
/// the same contents a second time changes nothing.
pub proof fn law_matching_files_are_left_alone(existing: Option<Seq<u8>>, contents: Seq<char>)
    ensures
        write_outcome(existing, contents) == WriteOutcome::Unchanged <==> existing == Some(
            encode_utf8(contents),
        ),
        write_outcome(Some(encode_utf8(contents)), contents) == WriteOutcome::Unchanged,
{
}

/// Pruning removes exactly the `*.gitconfig` files whose digest is not to be
/// kept: never one that is, and never a file of another kind.
pub proof fn law_pruning_spares_everything_else(
    name: Seq<char>,
    digest: Seq<char>,
    keep: Seq<Seq<char>>,
)
    ensures
        stale(Some(digest + ".gitconfig"@), keep) <==> !keep.contains(digest),
        stale(Some(name), keep) ==> ".gitconfig"@.is_suffix_of(name),
        !stale(None, keep),
{
    let full = digest + ".gitconfig"@;
    assert(".gitconfig"@.is_suffix_of(full));
    assert(full.take(full.len() - ".gitconfig"@.len()) == digest);
}

/// Pruning removes a file exactly if its name is a text that ends with
/// `.gitconfig` and what stands before that is none of the digests to keep.
pub proof fn law_what_is_stale(name: Option<Seq<char>>, keep: Seq<Seq<char>>)
    ensures
        stale(name, keep) <==> exists|digest: Seq<char>|
            name == Some(#[trigger] (digest + ".gitconfig"@)) && forall|i: int|
                0 <= i < keep.len() ==> #[trigger] keep[i] != digest,
{
    if stale(name, keep) {
        let text = name->0;
        let digest = text.take(text.len() - ".gitconfig"@.len());
        assert(text == digest + ".gitconfig"@);
        assert forall|i: int| 0 <= i < keep.len() implies #[trigger] keep[i] != digest by {
            assert(keep.contains(keep[i]));
        }
    }
    if exists|digest: Seq<char>|
        name == Some(#[trigger] (digest + ".gitconfig"@)) && forall|i: int|
            0 <= i < keep.len() ==> #[trigger] keep[i] != digest {
        let digest = choose|digest: Seq<char>|
            name == Some(#[trigger] (digest + ".gitconfig"@)) && forall|i: int|
                0 <= i < keep.len() ==> #[trigger] keep[i] != digest;
        law_pruning_spares_everything_else(digest + ".gitconfig"@, digest, keep);
    }
}

/// The stale names of a directory are found one by one: each that is stale is
/// listed as often as the directory lists it, and nothing else is.
pub proof fn law_stale_names_are_found_one_by_one(
    left: Seq<Option<String>>,
    right: Seq<Option<String>>,
    only: Option<String>,
    keep: Seq<Seq<char>>,
)
    ensures
        stale_names(left + right, keep) == stale_names(left, keep) + stale_names(right, keep),
        only matches Some(name) ==> (stale(Some(name@), keep) ==> stale_names(seq![only], keep)
            == seq![name@]),
        only matches Some(name) ==> (!stale(Some(name@), keep) ==> stale_names(
            seq![only],
            keep,
        ).len() == 0),
        only is None ==> stale_names(seq![only], keep).len() == 0,
    decreases right.len(),
{
    let none = Seq::<Option<String>>::empty();
    assert(seq![only].drop_last() == none);
    assert(stale_names(none, keep) == Seq::<Seq<char>>::empty());
    if right.len() == 0 {
        assert(left + right == left);
        assert(stale_names(left, keep) + stale_names(right, keep) == stale_names(left, keep));
    } else {
        law_stale_names_are_found_one_by_one(left, right.drop_last(), only, keep);
        assert((left + right).drop_last() == left + right.drop_last());
        assert((left + right).last() == right.last());
        assert(stale_names(left + right, keep) == stale_names(left, keep) + stale_names(
            right,
            keep,
        ));
    }
}

}
