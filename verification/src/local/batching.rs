//! What a batch asks to look at.

use vstd::prelude::*;
use crate::local::batch::{
    asks_nothing, full_batch, merged, no_batch, with_dir, with_name, with_object, with_tree,
    with_written, BatchModel, ScopeModel,
};
use crate::path::{PathModel, RelPath};
use crate::sorted::{lemma_inserted_all_holds, lemma_inserted_holds};
use crate::tree::FileHandle;

verus! {

/// The batch looks at `name` in `dir`.
pub open spec fn names_it(b: BatchModel, dir: PathModel, name: Seq<u8>) -> bool {
    b.dirs.contains_key(dir) && match b.dirs[dir] {
        ScopeModel::Whole => true,
        ScopeModel::Names(names) => names.contains(name),
    }
}

/// A name that is touched is looked at; what was looked at before still is, and
/// nothing else is. A directory's own `.` is its name where it is.
pub proof fn law_a_name_touched_is_looked_at(
    b: BatchModel,
    dir: PathModel,
    name: Seq<u8>,
    other: PathModel,
    also: Seq<u8>,
)
    ensures
        name != seq![46u8] ==> {
            let now = with_name(b, dir, name);
            &&& names_it(now, dir, name)
            &&& names_it(now, other, also) <==> names_it(b, other, also) || (other == dir && also == name)
            &&& now.full == b.full && now.trees == b.trees && now.objects == b.objects
            &&& now.written_handles == b.written_handles && now.written_rels == b.written_rels
        },
        dir.len() > 0 ==> with_name(b, dir, seq![46u8]) == with_name(b, dir.drop_last(), dir.last()),
        with_name(b, Seq::empty(), seq![46u8]) == b,
{
    if name != seq![46u8] {
        if let Some(ScopeModel::Names(names)) = b.dirs.get(dir) {
            lemma_inserted_holds::<Vec<u8>>(names, name, name);
            lemma_inserted_holds::<Vec<u8>>(names, name, also);
        }
        assert(seq![name].contains(name)) by {
            assert(seq![name][0] == name);
        }
    }
}

/// A file that was written is looked at by its name, and by its handle where it
/// came with one; and it is known to have been written, by both.
pub proof fn law_a_file_written_is_looked_at(
    b: BatchModel,
    dir: PathModel,
    name: Seq<u8>,
    handle: Seq<u8>,
    other: Seq<u8>,
)
    requires
        name != seq![46u8],
    ensures
        ({
            let with = with_written(b, dir, name, Some(handle));
            let without = with_written(b, dir, name, None);
            &&& names_it(with, dir, name) && names_it(without, dir, name)
            &&& with.written_rels.contains(dir.push(name)) && without.written_rels.contains(dir.push(name))
            &&& with.objects.contains(handle) && with.written_handles.contains(handle)
            &&& with.objects.contains(other) <==> b.objects.contains(other) || other == handle
            &&& with.written_handles.contains(other) <==> b.written_handles.contains(other) || other == handle
            &&& without.objects == b.objects && without.written_handles == b.written_handles
            &&& with.full == b.full && with.trees == b.trees
        }),
{
    law_a_name_touched_is_looked_at(b, dir, name, dir, name);
    lemma_inserted_holds::<RelPath>(b.written_rels, dir.push(name), dir.push(name));
    lemma_inserted_holds::<FileHandle>(b.objects, handle, handle);
    lemma_inserted_holds::<FileHandle>(b.objects, handle, other);
    lemma_inserted_holds::<FileHandle>(b.written_handles, handle, handle);
    lemma_inserted_holds::<FileHandle>(b.written_handles, handle, other);
}

/// A directory, a tree or an object that is added is there, and everything that
/// was there still is.
pub proof fn law_what_is_added_is_there(
    b: BatchModel,
    dir: PathModel,
    handle: Seq<u8>,
    other: PathModel,
    also: Seq<u8>,
)
    ensures
        names_it(with_dir(b, dir), dir, also),
        other != dir ==> (names_it(with_dir(b, dir), other, also) <==> names_it(b, other, also)),
        with_tree(b, dir).trees.contains(other) <==> b.trees.contains(other) || other == dir,
        with_object(b, handle).objects.contains(also) <==> b.objects.contains(also) || also == handle,
        with_tree(b, dir).dirs == b.dirs && with_tree(b, dir).objects == b.objects,
        with_object(b, handle).dirs == b.dirs && with_object(b, handle).trees == b.trees,
        with_dir(b, dir).trees == b.trees && with_dir(b, dir).objects == b.objects,
        with_dir(b, dir).full == b.full && with_tree(b, dir).full == b.full && with_object(b, handle).full
            == b.full,
{
    lemma_inserted_holds::<RelPath>(b.trees, dir, other);
    lemma_inserted_holds::<FileHandle>(b.objects, handle, also);
}

/// A merged batch looks at all that either looks at, and at nothing else.
pub proof fn law_a_merged_batch_looks_at_both(
    a: BatchModel,
    b: BatchModel,
    dir: PathModel,
    name: Seq<u8>,
    handle: Seq<u8>,
)
    ensures
        names_it(merged(a, b), dir, name) <==> names_it(a, dir, name) || names_it(b, dir, name),
        merged(a, b).full <==> a.full || b.full,
        merged(a, b).trees.contains(dir) <==> a.trees.contains(dir) || b.trees.contains(dir),
        merged(a, b).objects.contains(handle) <==> a.objects.contains(handle) || b.objects.contains(handle),
        merged(a, b).written_handles.contains(handle) <==> a.written_handles.contains(handle)
            || b.written_handles.contains(handle),
        merged(a, b).written_rels.contains(dir) <==> a.written_rels.contains(dir)
            || b.written_rels.contains(dir),
{
    lemma_inserted_all_holds::<RelPath>(a.trees, b.trees, dir);
    lemma_inserted_all_holds::<FileHandle>(a.objects, b.objects, handle);
    lemma_inserted_all_holds::<FileHandle>(a.written_handles, b.written_handles, handle);
    lemma_inserted_all_holds::<RelPath>(a.written_rels, b.written_rels, dir);
    match (a.dirs.get(dir), b.dirs.get(dir)) {
        (Some(ScopeModel::Names(x)), Some(ScopeModel::Names(y))) => {
            lemma_inserted_all_holds::<Vec<u8>>(x, y, name);
        },
        (None, Some(ScopeModel::Names(y))) => {
            lemma_inserted_all_holds::<Vec<u8>>(Seq::empty(), y, name);
        },
        _ => {},
    }
}

/// A batch asks nothing where it is not full, and names no directory, no tree and
/// no object; each of these alone is enough for it to ask something.
pub proof fn law_when_a_batch_asks_nothing(b: BatchModel, dir: PathModel, handle: Seq<u8>, name: Seq<u8>)
    ensures
        asks_nothing(no_batch()),
        !asks_nothing(full_batch()),
        b.full ==> !asks_nothing(b),
        !asks_nothing(with_dir(b, dir)),
        !asks_nothing(with_tree(b, dir)),
        !asks_nothing(with_object(b, handle)),
        name != seq![46u8] ==> !asks_nothing(with_name(b, dir, name)),
        asks_nothing(b) ==> !b.full && !names_it(b, dir, name) && !b.trees.contains(dir)
            && !b.objects.contains(handle),
{
    lemma_inserted_holds::<RelPath>(b.trees, dir, dir);
    lemma_inserted_holds::<FileHandle>(b.objects, handle, handle);
    assert(with_dir(b, dir).dirs.contains_key(dir));
    if name != seq![46u8] {
        assert(with_name(b, dir, name).dirs.contains_key(dir));
    }
}

} // verus!
