//! How the generated tree is published: which files are written, and in
//! which order.

use vstd::prelude::*;
use vstd::string::StringExecFns;
use vstd::utf8::{encode_utf8, encode_utf8_decode_utf8};

use crate::config::{sound, Config, ConfigView};
use crate::diagnosis::law_generated_files_pass_exactly_if_fresh;
use crate::doctor::{object_label, object_on_disk, orphan, tree_issues, TreeOnDisk};
use crate::file_io::{
    law_pruning_spares_everything_else, optional_bytes, stale, write_outcome, WriteOutcome,
};
use crate::file_path::{joined, law_joining_adds_one_name, names, single_name, FilePath};
use crate::order::{ascending, lemma_irreflexive, precedes};
use crate::paths::{
    config_file, law_everything_hangs_off_the_config_dir, object_gitconfig, objects_dir,
    root_gitconfig, Layout,
};
use crate::profiles::ProfileView;
use crate::render::{
    compile, digest_of, digest_of_bytes, law_objects_are_named_by_their_contents,
    law_the_root_names_compiled_objects, lemma_hex, lemma_objects_ascend, object_text, objects_of,
    rule_digest, sha256, tree_of, CompiledView,
};
use crate::sorted_map::{keys, lemma_every_entry_is_found, lemma_lookup_found, lookup};
use crate::status::hexadecimal;
use crate::text::{copy_texts, optional_text, texts, without_suffix};

verus! {

/// One step of writing the files that cloakroom owns.
#[derive(Debug)]
pub enum Step {
    /// Create a directory, with the directories above it, unless it is there.
    Directory(FilePath),
    /// Write a file, unless it holds these contents. Reports call it by its
    /// label.
    Write { path: FilePath, contents: String, label: String },
    /// Remove the stale objects in a directory.
    Prune { directory: FilePath, keep: Vec<String> },
}

/// One step of writing the files that cloakroom owns.
pub enum StepView {
    Directory(Seq<u8>),
    Write { path: Seq<u8>, contents: Seq<char>, label: Seq<char> },
    Prune { directory: Seq<u8>, keep: Seq<Seq<char>> },
}

impl View for Step {
    type V = StepView;

    open spec fn view(&self) -> StepView {
        match self {
            Step::Directory(path) => StepView::Directory(path@),
            Step::Write { path, contents, label } => StepView::Write {
                path: path@,
                contents: contents@,
                label: label@,
            },
            Step::Prune { directory, keep } => StepView::Prune {
                directory: directory@,
                keep: texts(keep@),
            },
        }
    }
}

/// The steps that a list holds.
pub open spec fn steps_of(list: Seq<Step>) -> Seq<StepView> {
    list.map_values(|step: Step| step@)
}

impl Step {
    /// The same step once more.
    pub fn copy(&self) -> (result: Self)
        ensures
            result@ == self@,
    {
        match self {
            Step::Directory(path) => Step::Directory(path.copy()),
            Step::Write { path, contents, label } => Step::Write {
                path: path.copy(),
                contents: contents.clone(),
                label: label.clone(),
            },
            Step::Prune { directory, keep } => Step::Prune {
                directory: directory.copy(),
                keep: copy_texts(keep),
            },
        }
    }
}

/// The step that writes one object.
pub open spec fn object_step(config_dir: Seq<u8>, object: (Seq<char>, Seq<char>)) -> StepView {
    StepView::Write {
        path: object_gitconfig(config_dir, object.0),
        contents: object.1,
        label: object_label(object.0),
    }
}

/// The steps that write the objects, in the order of their digests.
pub open spec fn object_steps(config_dir: Seq<u8>, objects: Seq<(Seq<char>, Seq<char>)>) -> Seq<
    StepView,
> {
    objects.map_values(|object: (Seq<char>, Seq<char>)| object_step(config_dir, object))
}

/// The steps that publish a compiled tree: objects first, then the root that
/// points at them, then pruning of what the root no longer names.
pub open spec fn publication(config_dir: Seq<u8>, compiled: CompiledView) -> Seq<StepView> {
    seq![StepView::Directory(objects_dir(config_dir))] + object_steps(config_dir, compiled.objects)
        + seq![
        StepView::Write {
            path: root_gitconfig(config_dir),
            contents: compiled.root,
            label: "generated/root.gitconfig"@,
        },
        StepView::Prune { directory: objects_dir(config_dir), keep: keys(compiled.objects) },
    ]
}

/// Plans the publication of the compiled tree in an order that keeps it
/// readable throughout.
///
/// Git may read these files at any moment, and at every point in this
/// sequence every path the root names exists. A failure part way leaves the
/// previous root intact and some unreferenced objects behind, which the next
/// apply prunes and doctor reports meanwhile. Once the root is written, nothing
/// fails any more: where the pruning cannot be performed, the objects that are
/// left are reported, and the tree is published all the same.
pub fn write_generated(layout: &Layout, config: &Config) -> (result: Vec<Step>)
    ensures
        steps_of(result@) == publication(layout@.config_dir, tree_of(config@)),
{
    let compiled = compile(config);
    let mut steps: Vec<Step> = Vec::new();
    let mut keep: Vec<String> = Vec::new();
    steps.push(Step::Directory(layout.objects_dir()));
    let ghost head = seq![StepView::Directory(objects_dir(layout@.config_dir))];
    let ghost plan = object_steps(layout@.config_dir, compiled@.objects);
    let mut i: usize = 0;
    assert(steps_of(steps@) == head + plan.take(0));
    while i < compiled.objects.len()
        invariant
            i <= compiled@.objects.len(),
            plan == object_steps(layout@.config_dir, compiled@.objects),
            steps_of(steps@) == head + plan.take(i as int),
            texts(keep@) == keys(compiled@.objects).take(i as int),
        decreases compiled@.objects.len() - i,
    {
        let digest = compiled.objects.key_at(i);
        let step = Step::Write {
            path: layout.object_gitconfig(digest.as_str()),
            contents: compiled.objects.value_at(i).clone(),
            label: "generated/objects/".to_owned().concat(digest.as_str()).concat(".gitconfig"),
        };
        assert(step@ == plan[i as int]);
        let ghost earlier = steps@;
        let ghost kept = keep@;
        steps.push(step);
        keep.push(digest.clone());
        i = i + 1;
        assert(steps_of(steps@) == steps_of(earlier).push(step@));
        assert(head + plan.take(i as int) == (head + plan.take(i - 1)).push(plan[i - 1]));
        assert(texts(keep@) == texts(kept).push(digest@));
        assert(keys(compiled@.objects).take(i as int) == keys(compiled@.objects).take(
            i - 1,
        ).push(digest@));
    }
    assert(plan.take(i as int) == plan);
    assert(keys(compiled@.objects).take(i as int) == keys(compiled@.objects));
    let ghost earlier = steps@;
    let root = Step::Write {
        path: layout.root_gitconfig(),
        contents: compiled.root,
        label: "generated/root.gitconfig".to_owned(),
    };
    let prune = Step::Prune { directory: layout.objects_dir(), keep };
    steps.push(root);
    steps.push(prune);
    assert(steps_of(steps@) == steps_of(earlier) + seq![root@, prune@]);
    steps
}

////////////////////////////////////////////////////////////////////////////
// Laws

/// Whether pruning removes the file at `path`.
pub open spec fn prunes(directory: Seq<u8>, keep: Seq<Seq<char>>, path: Seq<u8>) -> bool {
    exists|name: Seq<char>|
        path == joined(directory, #[trigger] encode_utf8(name)) && single_name(encode_utf8(name))
            && stale(Some(name), keep)
}

/// What a step makes of the files, given as their bytes by path.
pub open spec fn perform(files: Map<Seq<u8>, Seq<u8>>, step: StepView) -> Map<Seq<u8>, Seq<u8>> {
    match step {
        StepView::Directory(_) => files,
        StepView::Write { path, contents, .. } => files.insert(path, encode_utf8(contents)),
        StepView::Prune { directory, keep } => files.remove_keys(
            Set::new(|path: Seq<u8>| prunes(directory, keep, path)),
        ),
    }
}

/// What steps make of the files, one after the other.
pub open spec fn performed(files: Map<Seq<u8>, Seq<u8>>, steps: Seq<StepView>) -> Map<
    Seq<u8>,
    Seq<u8>,
>
    decreases steps.len(),
{
    if steps.len() == 0 {
        files
    } else {
        perform(performed(files, steps.drop_last()), steps.last())
    }
}

/// Whether git can follow the root of `config`: it is in place, and every
/// object it names is there and holds what its name is the digest of.
pub open spec fn readable(
    files: Map<Seq<u8>, Seq<u8>>,
    config_dir: Seq<u8>,
    config: ConfigView,
) -> bool {
    &&& files.contains_key(root_gitconfig(config_dir))
    &&& files[root_gitconfig(config_dir)] == encode_utf8(tree_of(config).root)
    &&& forall|i: int|
        0 <= i < config.rules.len() ==> match rule_digest(
            config.profiles,
            #[trigger] config.rules[i],
        ) {
            Some(digest) => holds_object(files, config_dir, digest),
            None => true,
        }
}

/// Whether the object with this digest is there and holds what it should.
pub open spec fn holds_object(
    files: Map<Seq<u8>, Seq<u8>>,
    config_dir: Seq<u8>,
    digest: Seq<char>,
) -> bool {
    let path = object_gitconfig(config_dir, digest);
    files.contains_key(path) && digest_of_bytes(files[path]) == digest
}

/// Whether the files are exactly the compiled tree: the root, every object,
/// and no other object beside them.
pub open spec fn in_place(
    files: Map<Seq<u8>, Seq<u8>>,
    config_dir: Seq<u8>,
    compiled: CompiledView,
) -> bool {
    &&& files.contains_key(root_gitconfig(config_dir))
    &&& files[root_gitconfig(config_dir)] == encode_utf8(compiled.root)
    &&& forall|i: int|
        0 <= i < compiled.objects.len() ==> {
            let path = object_gitconfig(config_dir, (#[trigger] compiled.objects[i]).0);
            files.contains_key(path) && files[path] == encode_utf8(compiled.objects[i].1)
        }
    &&& forall|path: Seq<u8>| #[trigger]
        files.contains_key(path) ==> !prunes(objects_dir(config_dir), keys(compiled.objects), path)
}

/// The names of objects are hexadecimal.
proof fn lemma_digest_is_hexadecimal(contents: Seq<char>)
    ensures
        hexadecimal(digest_of(contents)),
{
    lemma_hex(sha256(encode_utf8(contents)));
}

/// Different objects have different paths, and none is that of the root.
proof fn lemma_object_paths_differ(config_dir: Seq<u8>, left: Seq<char>, right: Seq<char>)
    requires
        hexadecimal(left),
        hexadecimal(right),
    ensures
        object_gitconfig(config_dir, left) == object_gitconfig(config_dir, right) ==> left == right,
        object_gitconfig(config_dir, left) != root_gitconfig(config_dir),
{
    law_everything_hangs_off_the_config_dir(config_dir, left);
    law_everything_hangs_off_the_config_dir(config_dir, right);
    let a = left + ".gitconfig"@;
    let b = right + ".gitconfig"@;
    if object_gitconfig(config_dir, left) == object_gitconfig(config_dir, right) {
        assert(names(object_gitconfig(config_dir, left)).last() == encode_utf8(a));
        assert(names(object_gitconfig(config_dir, right)).last() == encode_utf8(b));
        encode_utf8_decode_utf8(a);
        encode_utf8_decode_utf8(b);
        assert(a == b);
        assert(left == a.take(a.len() - ".gitconfig"@.len()));
        assert(right == b.take(b.len() - ".gitconfig"@.len()));
    }
    assert(names(object_gitconfig(config_dir, left)).len() == names(config_dir).len() + 3);
    assert(names(root_gitconfig(config_dir)).len() == names(config_dir).len() + 2);
}

/// Pruning spares the root and every object that is to be kept.
proof fn lemma_pruning_spares(config_dir: Seq<u8>, keep: Seq<Seq<char>>, digest: Seq<char>)
    requires
        hexadecimal(digest),
    ensures
        !prunes(objects_dir(config_dir), keep, root_gitconfig(config_dir)),
        keep.contains(digest) ==> !prunes(
            objects_dir(config_dir),
            keep,
            object_gitconfig(config_dir, digest),
        ),
{
    let directory = objects_dir(config_dir);
    law_everything_hangs_off_the_config_dir(config_dir, digest);
    if prunes(directory, keep, root_gitconfig(config_dir)) {
        let name = choose|name: Seq<char>|
            root_gitconfig(config_dir) == joined(directory, #[trigger] encode_utf8(name))
                && single_name(encode_utf8(name)) && stale(Some(name), keep);
        law_joining_adds_one_name(directory, encode_utf8(name));
        assert(names(directory).push(encode_utf8(name)).len() == names(config_dir).len() + 3);
        assert(names(root_gitconfig(config_dir)).len() == names(config_dir).len() + 2);
    }
    let path = object_gitconfig(config_dir, digest);
    if keep.contains(digest) && prunes(directory, keep, path) {
        let name = choose|name: Seq<char>|
            path == joined(directory, #[trigger] encode_utf8(name)) && single_name(
                encode_utf8(name),
            ) && stale(Some(name), keep);
        law_joining_adds_one_name(directory, encode_utf8(name));
        let full = digest + ".gitconfig"@;
        assert(names(path).last() == encode_utf8(name));
        assert(names(path).last() == encode_utf8(full));
        encode_utf8_decode_utf8(name);
        encode_utf8_decode_utf8(full);
        law_pruning_spares_everything_else(name, digest, keep);
    }
}

/// Whether the file at `path` is the same before and after: there with the
/// same contents, or not there.
pub open spec fn same_file(
    before: Map<Seq<u8>, Seq<u8>>,
    after: Map<Seq<u8>, Seq<u8>>,
    path: Seq<u8>,
) -> bool {
    &&& after.contains_key(path) == before.contains_key(path)
    &&& before.contains_key(path) ==> after[path] == before[path]
}

/// The steps up to and with the first `count` objects.
spec fn opening(config_dir: Seq<u8>, objects: Seq<(Seq<char>, Seq<char>)>, count: int) -> Seq<
    StepView,
> {
    seq![StepView::Directory(objects_dir(config_dir))] + object_steps(config_dir, objects).take(
        count,
    )
}

/// Each object is one more step.
proof fn lemma_opening(
    files: Map<Seq<u8>, Seq<u8>>,
    config_dir: Seq<u8>,
    objects: Seq<(Seq<char>, Seq<char>)>,
    count: int,
)
    requires
        0 <= count <= objects.len(),
    ensures
        count == 0 ==> performed(files, opening(config_dir, objects, count)) == files,
        count > 0 ==> performed(files, opening(config_dir, objects, count)) == performed(
            files,
            opening(config_dir, objects, count - 1),
        ).insert(
            object_gitconfig(config_dir, objects[count - 1].0),
            encode_utf8(objects[count - 1].1),
        ),
{
    let steps = opening(config_dir, objects, count);
    if count == 0 {
        let head = seq![StepView::Directory(objects_dir(config_dir))];
        assert(steps == head);
        assert(head.drop_last() == Seq::<StepView>::empty());
        assert(performed(files, head.drop_last()) == files);
    } else {
        assert(steps.drop_last() == opening(config_dir, objects, count - 1));
        assert(steps.last() == object_step(config_dir, objects[count - 1]));
    }
}

/// Writing objects leaves each object as it was, or writes it anew with
/// contents of the same digest.
proof fn lemma_opening_keeps_digests(
    files: Map<Seq<u8>, Seq<u8>>,
    config_dir: Seq<u8>,
    objects: Seq<(Seq<char>, Seq<char>)>,
    count: int,
    digest: Seq<char>,
)
    requires
        0 <= count <= objects.len(),
        forall|i: int| 0 <= i < objects.len() ==> hexadecimal((#[trigger] objects[i]).0),
        forall|i: int|
            0 <= i < objects.len() ==> digest_of((#[trigger] objects[i]).1) == objects[i].0,
        hexadecimal(digest),
        files.contains_key(object_gitconfig(config_dir, digest)),
    ensures
        ({
            let path = object_gitconfig(config_dir, digest);
            let after = performed(files, opening(config_dir, objects, count));
            &&& after.contains_key(path)
            &&& after[path] == files[path] || digest_of_bytes(after[path]) == digest
        }),
    decreases count,
{
    lemma_opening(files, config_dir, objects, count);
    if count > 0 {
        lemma_opening_keeps_digests(files, config_dir, objects, count - 1, digest);
        lemma_object_paths_differ(config_dir, digest, objects[count - 1].0);
        assert(digest_of(objects[count - 1].1) == objects[count - 1].0);
    }
}

/// Writing objects leaves every other file alone.
proof fn lemma_opening_spares(
    files: Map<Seq<u8>, Seq<u8>>,
    config_dir: Seq<u8>,
    objects: Seq<(Seq<char>, Seq<char>)>,
    count: int,
    path: Seq<u8>,
)
    requires
        0 <= count <= objects.len(),
        forall|i: int|
            0 <= i < count ==> path != object_gitconfig(config_dir, (#[trigger] objects[i]).0),
    ensures
        same_file(files, performed(files, opening(config_dir, objects, count)), path),
    decreases count,
{
    lemma_opening(files, config_dir, objects, count);
    if count > 0 {
        lemma_opening_spares(files, config_dir, objects, count - 1, path);
        assert(path != object_gitconfig(config_dir, objects[count - 1].0));
    }
}

/// Every object is there once it is written.
proof fn lemma_opening_writes(
    files: Map<Seq<u8>, Seq<u8>>,
    config_dir: Seq<u8>,
    objects: Seq<(Seq<char>, Seq<char>)>,
    count: int,
    index: int,
)
    requires
        0 <= index < count <= objects.len(),
        ascending(keys(objects)),
        forall|i: int| 0 <= i < objects.len() ==> hexadecimal((#[trigger] objects[i]).0),
    ensures
        ({
            let after = performed(files, opening(config_dir, objects, count));
            let path = object_gitconfig(config_dir, objects[index].0);
            after.contains_key(path) && after[path] == encode_utf8(objects[index].1)
        }),
    decreases count,
{
    lemma_opening(files, config_dir, objects, count);
    if index < count - 1 {
        lemma_opening_writes(files, config_dir, objects, count - 1, index);
        lemma_object_paths_differ(config_dir, objects[index].0, objects[count - 1].0);
        assert(precedes(keys(objects)[index], keys(objects)[count - 1]));
        lemma_irreflexive(objects[index].0);
    }
}

/// The objects of a configuration stand in order, under hexadecimal names.
proof fn lemma_objects_of(profiles: Seq<(Seq<char>, ProfileView)>)
    ensures
        ascending(keys(objects_of(profiles))),
        forall|i: int|
            0 <= i < objects_of(profiles).len() ==> hexadecimal(
                (#[trigger] objects_of(profiles)[i]).0,
            ),
        forall|i: int|
            0 <= i < objects_of(profiles).len() ==> digest_of(
                (#[trigger] objects_of(profiles)[i]).1,
            ) == objects_of(profiles)[i].0,
{
    let objects = objects_of(profiles);
    lemma_objects_ascend(profiles);
    assert forall|i: int| 0 <= i < objects.len() implies hexadecimal((#[trigger] objects[i]).0)
        && digest_of(objects[i].1) == objects[i].0 by {
        lemma_every_entry_is_found(objects, i);
        law_objects_are_named_by_their_contents(profiles, objects[i].0);
        lemma_digest_is_hexadecimal(objects[i].1);
    }
}

/// Before the root is written a publication leaves the root as it was, and
/// each object as it was or written anew with contents of the same digest.
pub proof fn law_what_is_there_stays_until_the_root_is_written(
    files: Map<Seq<u8>, Seq<u8>>,
    config_dir: Seq<u8>,
    config: ConfigView,
    count: int,
    digest: Seq<char>,
)
    requires
        0 <= count <= publication(config_dir, tree_of(config)).len() - 2,
        hexadecimal(digest),
    ensures
        ({
            let path = object_gitconfig(config_dir, digest);
            let after = performed(
                files,
                publication(config_dir, tree_of(config)).take(count),
            );
            &&& same_file(files, after, root_gitconfig(config_dir))
            &&& files.contains_key(path) ==> after.contains_key(path) && (after[path]
                == files[path] || digest_of_bytes(after[path]) == digest)
        }),
{
    let objects = tree_of(config).objects;
    let steps = publication(config_dir, tree_of(config)).take(count);
    let root = root_gitconfig(config_dir);
    lemma_objects_of(config.profiles);
    if count == 0 {
        assert(steps == Seq::<StepView>::empty());
    } else {
        assert(steps == opening(config_dir, objects, count - 1));
        lemma_root_is_no_object(config_dir, config);
        lemma_opening_spares(files, config_dir, objects, count - 1, root);
        if files.contains_key(object_gitconfig(config_dir, digest)) {
            lemma_opening_keeps_digests(files, config_dir, objects, count - 1, digest);
        }
    }
}

/// The root is none of the objects.
proof fn lemma_root_is_no_object(config_dir: Seq<u8>, config: ConfigView)
    ensures
        forall|i: int|
            0 <= i < tree_of(config).objects.len() ==> root_gitconfig(config_dir)
                != object_gitconfig(config_dir, (#[trigger] tree_of(config).objects[i]).0),
{
    let objects = tree_of(config).objects;
    lemma_objects_of(config.profiles);
    assert forall|i: int| 0 <= i < objects.len() implies root_gitconfig(config_dir)
        != object_gitconfig(config_dir, (#[trigger] objects[i]).0) by {
        lemma_object_paths_differ(config_dir, objects[i].0, objects[i].0);
    }
}

/// What a publication comes to once the root is written, before it prunes.
proof fn lemma_with_the_root(
    files: Map<Seq<u8>, Seq<u8>>,
    config_dir: Seq<u8>,
    config: ConfigView,
)
    ensures
        ({
            let compiled = tree_of(config);
            let steps = publication(config_dir, compiled);
            let written = performed(files, steps.drop_last());
            &&& written == performed(
                files,
                opening(config_dir, compiled.objects, compiled.objects.len() as int),
            ).insert(root_gitconfig(config_dir), encode_utf8(compiled.root))
            &&& performed(files, steps) == written.remove_keys(
                Set::new(
                    |path: Seq<u8>|
                        prunes(objects_dir(config_dir), keys(compiled.objects), path),
                ),
            )
        }),
{
    let objects = tree_of(config).objects;
    let steps = publication(config_dir, tree_of(config));
    let plan = object_steps(config_dir, objects);
    assert(plan.take(objects.len() as int) == plan);
    assert(steps.drop_last().drop_last() == opening(config_dir, objects, objects.len() as int));
}

/// Every object is there once the root is written.
proof fn lemma_objects_with_the_root(
    files: Map<Seq<u8>, Seq<u8>>,
    config_dir: Seq<u8>,
    config: ConfigView,
    index: int,
)
    requires
        0 <= index < tree_of(config).objects.len(),
    ensures
        ({
            let compiled = tree_of(config);
            let written = performed(files, publication(config_dir, compiled).drop_last());
            let path = object_gitconfig(config_dir, compiled.objects[index].0);
            written.contains_key(path) && written[path] == encode_utf8(compiled.objects[index].1)
        }),
{
    let objects = tree_of(config).objects;
    lemma_objects_of(config.profiles);
    lemma_with_the_root(files, config_dir, config);
    lemma_opening_writes(files, config_dir, objects, objects.len() as int, index);
    lemma_object_paths_differ(config_dir, objects[index].0, objects[index].0);
}

/// Every object that the root of a sound configuration names is among the
/// objects to keep.
proof fn lemma_named_objects_are_kept(config: ConfigView, index: int)
    requires
        sound(config),
        0 <= index < config.rules.len(),
    ensures
        rule_digest(config.profiles, config.rules[index]) matches Some(digest) && keys(
            tree_of(config).objects,
        ).contains(digest) && hexadecimal(digest),
{
    law_the_root_names_compiled_objects(config, index);
    let digest = rule_digest(config.profiles, config.rules[index])->0;
    let at = lemma_lookup_found(tree_of(config).objects, digest);
    assert(keys(tree_of(config).objects)[at] == digest);
    lemma_digest_is_hexadecimal(
        object_text(
            config.rules[index].profile,
            lookup(config.profiles, config.rules[index].profile)->0,
        ),
    );
}

/// Once the root is written, git can follow it, before and after the pruning.
pub proof fn lemma_with_the_root_is_readable(
    files: Map<Seq<u8>, Seq<u8>>,
    config_dir: Seq<u8>,
    config: ConfigView,
)
    requires
        sound(config),
    ensures
        ({
            let steps = publication(config_dir, tree_of(config));
            &&& readable(performed(files, steps.take(steps.len() - 1)), config_dir, config)
            &&& readable(performed(files, steps), config_dir, config)
        }),
{
    let compiled = tree_of(config);
    let steps = publication(config_dir, compiled);
    let keep = keys(compiled.objects);
    let written = performed(files, steps.drop_last());
    lemma_with_the_root(files, config_dir, config);
    assert forall|i: int| 0 <= i < config.rules.len() implies match rule_digest(
        config.profiles,
        #[trigger] config.rules[i],
    ) {
        Some(digest) => holds_object(written, config_dir, digest) && !prunes(
            objects_dir(config_dir),
            keep,
            object_gitconfig(config_dir, digest),
        ),
        None => true,
    } by {
        lemma_named_objects_are_kept(config, i);
        let digest = rule_digest(config.profiles, config.rules[i])->0;
        let at = choose|at: int| 0 <= at < keep.len() && keep[at] == digest;
        assert(compiled.objects[at].0 == digest);
        lemma_objects_of(config.profiles);
        lemma_objects_with_the_root(files, config_dir, config, at);
        lemma_pruning_spares(config_dir, keep, digest);
    }
    lemma_pruning_spares(config_dir, keep, Seq::<char>::empty());
    assert(steps.take(steps.len() - 1) == steps.drop_last());
}

/// Git can follow the root at any moment of a publication: whichever steps
/// have been performed, every object that the root in place names is there and
/// holds what its name is the digest of.
/// Until the root is replaced it is the one of the previous configuration,
/// where there is one; from then on it is the new one. So a failure part way
/// leaves a tree that git can read.
pub proof fn law_the_tree_stays_readable(
    files: Map<Seq<u8>, Seq<u8>>,
    config_dir: Seq<u8>,
    previous: ConfigView,
    config: ConfigView,
    count: int,
)
    requires
        sound(config),
        files.contains_key(root_gitconfig(config_dir)) ==> readable(files, config_dir, previous),
        0 <= count <= publication(config_dir, tree_of(config)).len(),
    ensures
        ({
            let steps = publication(config_dir, tree_of(config));
            let after = performed(files, steps.take(count));
            if count <= steps.len() - 2 {
                &&& same_file(files, after, root_gitconfig(config_dir))
                &&& after.contains_key(root_gitconfig(config_dir)) ==> readable(
                    after,
                    config_dir,
                    previous,
                )
            } else {
                readable(after, config_dir, config)
            }
        }),
{
    let compiled = tree_of(config);
    let steps = publication(config_dir, compiled);
    let root = root_gitconfig(config_dir);
    let after = performed(files, steps.take(count));
    assert(steps.len() == compiled.objects.len() + 3);
    if count <= steps.len() - 2 {
        lemma_digest_is_hexadecimal(Seq::<char>::empty());
        law_what_is_there_stays_until_the_root_is_written(
            files,
            config_dir,
            config,
            count,
            digest_of(Seq::<char>::empty()),
        );
        if after.contains_key(root) {
            assert forall|i: int| 0 <= i < previous.rules.len() implies match rule_digest(
                previous.profiles,
                #[trigger] previous.rules[i],
            ) {
                Some(digest) => holds_object(after, config_dir, digest),
                None => true,
            } by {
                if let Some(digest) = rule_digest(previous.profiles, previous.rules[i]) {
                    let profile = lookup(previous.profiles, previous.rules[i].profile)->0;
                    lemma_digest_is_hexadecimal(object_text(previous.rules[i].profile, profile));
                    law_what_is_there_stays_until_the_root_is_written(
                        files,
                        config_dir,
                        config,
                        count,
                        digest,
                    );
                    assert(holds_object(files, config_dir, digest));
                }
            }
        }
    } else {
        lemma_with_the_root_is_readable(files, config_dir, config);
        if count == steps.len() {
            assert(steps.take(count) == steps);
        }
    }
}

/// A completed publication leaves exactly the compiled tree: the root, every
/// object with its contents, and no other object.
pub proof fn law_publication_puts_the_tree_in_place(
    files: Map<Seq<u8>, Seq<u8>>,
    config_dir: Seq<u8>,
    config: ConfigView,
)
    ensures
        in_place(
            performed(files, publication(config_dir, tree_of(config))),
            config_dir,
            tree_of(config),
        ),
{
    let compiled = tree_of(config);
    let steps = publication(config_dir, compiled);
    let keep = keys(compiled.objects);
    let written = performed(files, steps.drop_last());
    let after = performed(files, steps);
    lemma_with_the_root(files, config_dir, config);
    lemma_objects_of(config.profiles);
    lemma_pruning_spares(config_dir, keep, Seq::<char>::empty());
    assert forall|i: int| 0 <= i < compiled.objects.len() implies {
        let path = object_gitconfig(config_dir, (#[trigger] compiled.objects[i]).0);
        after.contains_key(path) && after[path] == encode_utf8(compiled.objects[i].1)
    } by {
        assert(keep[i] == compiled.objects[i].0);
        lemma_objects_with_the_root(files, config_dir, config, i);
        lemma_pruning_spares(config_dir, keep, compiled.objects[i].0);
    }
}

/// Where the tree is in place already, no step of publishing it changes
/// anything.
pub proof fn lemma_steps_are_idle(
    files: Map<Seq<u8>, Seq<u8>>,
    config_dir: Seq<u8>,
    config: ConfigView,
    index: int,
)
    requires
        in_place(files, config_dir, tree_of(config)),
        0 <= index < publication(config_dir, tree_of(config)).len(),
    ensures
        perform(files, publication(config_dir, tree_of(config))[index]) == files,
{
    let compiled = tree_of(config);
    let objects = compiled.objects;
    let step = publication(config_dir, compiled)[index];
    if 1 <= index <= objects.len() {
        assert(step == object_step(config_dir, objects[index - 1]));
    }
    assert(perform(files, step) =~= files);
}

/// Publishing a configuration a second time changes nothing, however far it
/// gets.
pub proof fn law_publishing_twice_changes_nothing(
    files: Map<Seq<u8>, Seq<u8>>,
    config_dir: Seq<u8>,
    config: ConfigView,
    count: int,
)
    requires
        in_place(files, config_dir, tree_of(config)),
        0 <= count <= publication(config_dir, tree_of(config)).len(),
    ensures
        performed(files, publication(config_dir, tree_of(config)).take(count)) == files,
    decreases count,
{
    let steps = publication(config_dir, tree_of(config));
    if count == 0 {
        assert(steps.take(0) == Seq::<StepView>::empty());
    } else {
        law_publishing_twice_changes_nothing(files, config_dir, config, count - 1);
        lemma_steps_are_idle(files, config_dir, config, count - 1);
        assert(steps.take(count).drop_last() == steps.take(count - 1));
        assert(steps.take(count).last() == steps[count - 1]);
    }
}

/// Pruning removes nothing but objects.
proof fn lemma_pruning_removes_objects(config_dir: Seq<u8>, keep: Seq<Seq<char>>, path: Seq<u8>)
    requires
        forall|digest: Seq<char>| path != #[trigger] object_gitconfig(config_dir, digest),
    ensures
        !prunes(objects_dir(config_dir), keep, path),
{
    if prunes(objects_dir(config_dir), keep, path) {
        let name = choose|name: Seq<char>|
            path == joined(objects_dir(config_dir), #[trigger] encode_utf8(name)) && single_name(
                encode_utf8(name),
            ) && stale(Some(name), keep);
        let digest = name.take(name.len() - ".gitconfig"@.len());
        law_pruning_spares_everything_else(name, digest, keep);
        assert(name == digest + ".gitconfig"@);
        assert(path == object_gitconfig(config_dir, digest));
    }
}

/// A publication touches nothing but the root and objects: any other file is
/// as it was, whatever bytes it holds and however far the publication gets.
pub proof fn law_publication_touches_only_its_tree(
    files: Map<Seq<u8>, Seq<u8>>,
    config_dir: Seq<u8>,
    config: ConfigView,
    count: int,
    path: Seq<u8>,
)
    requires
        0 <= count <= publication(config_dir, tree_of(config)).len(),
        path != root_gitconfig(config_dir),
        forall|digest: Seq<char>| path != #[trigger] object_gitconfig(config_dir, digest),
    ensures
        same_file(
            files,
            performed(files, publication(config_dir, tree_of(config)).take(count)),
            path,
        ),
    decreases count,
{
    let objects = tree_of(config).objects;
    let steps = publication(config_dir, tree_of(config));
    if count == 0 {
        assert(steps.take(0) == Seq::<StepView>::empty());
    } else {
        let step = steps[count - 1];
        law_publication_touches_only_its_tree(files, config_dir, config, count - 1, path);
        assert(steps.take(count).drop_last() == steps.take(count - 1));
        assert(steps.take(count).last() == step);
        if 2 <= count <= objects.len() + 1 {
            assert(step == object_step(config_dir, objects[count - 2]));
        }
        lemma_pruning_removes_objects(config_dir, keys(objects), path);
    }
}

/// The configuration file is neither the root nor an object.
proof fn lemma_configuration_stands_apart(config_dir: Seq<u8>, digest: Seq<char>)
    requires
        hexadecimal(digest),
    ensures
        config_file(config_dir) != root_gitconfig(config_dir),
        config_file(config_dir) != object_gitconfig(config_dir, digest),
{
    law_everything_hangs_off_the_config_dir(config_dir, digest);
    assert(names(config_file(config_dir)).len() == names(config_dir).len() + 1);
    assert(names(root_gitconfig(config_dir)).len() == names(config_dir).len() + 2);
    assert(names(object_gitconfig(config_dir, digest)).len() == names(config_dir).len() + 3);
}

/// The configuration file is none of the files that a publication writes.
#[verifier::spinoff_prover]
pub proof fn lemma_paths_of_a_publication(config_dir: Seq<u8>, config: ConfigView, index: int)
    requires
        0 <= index < publication(config_dir, tree_of(config)).len(),
    ensures
        publication(config_dir, tree_of(config))[index] matches StepView::Write {
            path,
            ..
        } ==> path != config_file(config_dir),
{
    let objects = tree_of(config).objects;
    if 1 <= index <= objects.len() {
        lemma_objects_of(config.profiles);
        lemma_configuration_stands_apart(config_dir, objects[index - 1].0);
        assert(publication(config_dir, tree_of(config))[index] == object_step(
            config_dir,
            objects[index - 1],
        ));
    } else {
        lemma_configuration_stands_apart(config_dir, Seq::<char>::empty());
    }
}

/// Doctor reports exactly the objects that the next publication prunes.
pub proof fn law_doctor_reports_what_apply_prunes(
    objects: Seq<(Seq<char>, Seq<char>)>,
    name: Option<Seq<char>>,
)
    ensures
        orphan(objects, name) == stale(name, keys(objects)),
{
    if let Some(text) = name {
        if let Some(digest) = without_suffix(text, ".gitconfig"@) {
            if lookup(objects, digest) is Some {
                let at = lemma_lookup_found(objects, digest);
                assert(keys(objects)[at] == digest);
            } else {
                assert forall|i: int| 0 <= i < objects.len() implies keys(objects)[i] != digest by {
                    if objects[i].0 == digest {
                        lemma_key_is_found(objects, i);
                    }
                }
            }
        }
    }
}

/// Something is found under every key.
proof fn lemma_key_is_found(entries: Seq<(Seq<char>, Seq<char>)>, at: int)
    requires
        0 <= at < entries.len(),
    ensures
        lookup(entries, entries[at].0) is Some,
    decreases entries.len(),
{
    if entries[0].0 != entries[at].0 {
        lemma_key_is_found(entries.skip(1), at - 1);
    }
}

/// Whether `tree` is what reading the files yields: the root, the objects that
/// should be there, and names that are in the directory.
pub open spec fn read_from(
    files: Map<Seq<u8>, Seq<u8>>,
    config_dir: Seq<u8>,
    compiled: CompiledView,
    tree: TreeOnDisk,
) -> bool {
    let root = root_gitconfig(config_dir);
    &&& files.contains_key(root) ==> optional_bytes(tree.root) == Some(files[root])
    &&& forall|i: int|
        0 <= i < compiled.objects.len() ==> {
            let path = object_gitconfig(config_dir, (#[trigger] compiled.objects[i]).0);
            files.contains_key(path) ==> object_on_disk(tree, i) == Some(files[path])
        }
    &&& forall|i: int|
        0 <= i < tree.names@.len() ==> match optional_text(#[trigger] tree.names@[i]) {
            Some(name) => single_name(encode_utf8(name)) && files.contains_key(
                joined(objects_dir(config_dir), encode_utf8(name)),
            ),
            None => true,
        }
}

/// Doctor is content with a tree that has just been published.
pub proof fn law_doctor_accepts_a_published_tree(
    files: Map<Seq<u8>, Seq<u8>>,
    config_dir: Seq<u8>,
    config: ConfigView,
    tree: TreeOnDisk,
)
    requires
        read_from(
            performed(files, publication(config_dir, tree_of(config))),
            config_dir,
            tree_of(config),
            tree,
        ),
    ensures
        tree_issues(tree_of(config), tree).len() == 0,
{
    let compiled = tree_of(config);
    let after = performed(files, publication(config_dir, compiled));
    law_publication_puts_the_tree_in_place(files, config_dir, config);
    assert forall|i: int| 0 <= i < tree.names@.len() implies !orphan(
        compiled.objects,
        optional_text(#[trigger] tree.names@[i]),
    ) by {
        let name = optional_text(tree.names@[i]);
        law_doctor_reports_what_apply_prunes(compiled.objects, name);
        if stale(name, keys(compiled.objects)) {
            let path = joined(objects_dir(config_dir), encode_utf8(name->0));
            assert(after.contains_key(path));
            assert(prunes(objects_dir(config_dir), keys(compiled.objects), path));
        }
    }
    assert forall|i: int| 0 <= i < compiled.objects.len() implies object_on_disk(tree, i) == Some(
        encode_utf8((#[trigger] compiled.objects[i]).1),
    ) by {
        let path = object_gitconfig(config_dir, compiled.objects[i].0);
        assert(after.contains_key(path));
    }
    law_generated_files_pass_exactly_if_fresh(compiled, tree);
}

/// The bytes at `path`, if there is a file.
pub open spec fn bytes_at(files: Map<Seq<u8>, Seq<u8>>, path: Seq<u8>) -> Option<Seq<u8>> {
    if files.contains_key(path) {
        Some(files[path])
    } else {
        None
    }
}

/// Writing a file: afterwards it holds exactly the bytes of the contents, and
/// every other file is as it was. It counts as unchanged exactly if it held
/// them before, and then nothing changes at all. Writing the same contents
/// again counts as unchanged.
pub proof fn law_writing_a_file(
    files: Map<Seq<u8>, Seq<u8>>,
    path: Seq<u8>,
    contents: Seq<char>,
    label: Seq<char>,
    other: Seq<u8>,
)
    ensures
        ({
            let after = perform(files, StepView::Write { path, contents, label });
            let outcome = write_outcome(bytes_at(files, path), contents);
            &&& bytes_at(after, path) == Some(encode_utf8(contents))
            &&& other != path ==> same_file(files, after, other)
            &&& outcome == WriteOutcome::Unchanged <==> bytes_at(files, path) == Some(
                encode_utf8(contents),
            )
            &&& outcome == WriteOutcome::Unchanged <==> after == files
            &&& write_outcome(bytes_at(after, path), contents) == WriteOutcome::Unchanged
        }),
{
    let after = perform(files, StepView::Write { path, contents, label });
    if files.contains_key(path) && files[path] == encode_utf8(contents) {
        assert(after =~= files);
    }
}

/// Pruning spares the configuration file.
pub proof fn lemma_pruning_spares_the_configuration(config_dir: Seq<u8>, keep: Seq<Seq<char>>)
    ensures
        !prunes(objects_dir(config_dir), keep, config_file(config_dir)),
{
    let directory = objects_dir(config_dir);
    let path = config_file(config_dir);
    law_everything_hangs_off_the_config_dir(config_dir, Seq::<char>::empty());
    if prunes(directory, keep, path) {
        let name = choose|name: Seq<char>|
            path == joined(directory, #[trigger] encode_utf8(name)) && single_name(
                encode_utf8(name),
            ) && stale(Some(name), keep);
        law_joining_adds_one_name(directory, encode_utf8(name));
        assert(names(directory).push(encode_utf8(name)).len() == names(config_dir).len() + 3);
        assert(names(path).len() == names(config_dir).len() + 1);
    }
}

/// Only the last step of a publication prunes, and it prunes the directory of
/// the objects by their digests.
pub proof fn lemma_shape_of_a_publication(config_dir: Seq<u8>, config: ConfigView, index: int)
    requires
        0 <= index < publication(config_dir, tree_of(config)).len(),
    ensures
        ({
            let steps = publication(config_dir, tree_of(config));
            &&& steps[index] is Prune <==> index == steps.len() - 1
            &&& steps[index] is Prune ==> steps[index] == (StepView::Prune {
                directory: objects_dir(config_dir),
                keep: keys(tree_of(config).objects),
            })
        }),
{
    let objects = tree_of(config).objects;
    let steps = publication(config_dir, tree_of(config));
    if 1 <= index <= objects.len() {
        assert(steps[index] == object_step(config_dir, objects[index - 1]));
    }
}

}
