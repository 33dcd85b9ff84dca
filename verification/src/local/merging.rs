//! Merging batches: whatever the order they come in, the same is examined.

use vstd::prelude::*;
use crate::local::batch::{
    dirs_named, merged, merged_scope, no_batch, own_name, scope_with, with_name, with_written,
    BatchModel, ScopeModel,
};
use crate::path::RelPath;
use crate::sorted::{
    inserted, inserted_all, lemma_inserted_all_holds, lemma_inserted_all_rises,
    lemma_inserted_rises, lemma_rising_lists_agree, rising, Ordered,
};
use crate::tree::FileHandle;

verus! {

/// The names of a scope are in their order, each once.
pub open spec fn is_sorted_scope(scope: ScopeModel) -> bool {
    scope matches ScopeModel::Names(names) ==> rising::<Vec<u8>>(names)
}

/// What a batch lists is in its order, each once.
pub open spec fn is_sorted(b: BatchModel) -> bool {
    &&& forall|d: Seq<Seq<u8>>| #[trigger] b.dirs.contains_key(d) ==> is_sorted_scope(b.dirs[d])
    &&& rising::<RelPath>(b.trees)
    &&& rising::<FileHandle>(b.objects)
    &&& rising::<FileHandle>(b.written_handles)
    &&& rising::<RelPath>(b.written_rels)
}

proof fn lemma_named_sorted(dirs: Map<Seq<Seq<u8>>, ScopeModel>, dir: Seq<Seq<u8>>, name: Seq<u8>)
    requires
        forall|d: Seq<Seq<u8>>| #[trigger] dirs.contains_key(d) ==> is_sorted_scope(dirs[d]),
    ensures
        forall|d: Seq<Seq<u8>>| #[trigger]
            dirs_named(dirs, dir, name).contains_key(d) ==> is_sorted_scope(
                dirs_named(dirs, dir, name)[d],
            ),
    decreases dir.len(),
{
    if name == own_name() {
        if dir.len() > 0 {
            lemma_named_sorted(dirs, dir.drop_last(), dir.last());
            let above = dirs_named(dirs, dir.drop_last(), dir.last());
            assert(dirs_named(dirs, dir, name) == above);
            assert forall|d: Seq<Seq<u8>>| #[trigger] dirs_named(dirs, dir, name).contains_key(d) implies
                is_sorted_scope(dirs_named(dirs, dir, name)[d]) by {
                assert(above.contains_key(d));
            }
        } else {
            assert(dirs_named(dirs, dir, name) == dirs);
        }
    } else {
        match dirs.get(dir) {
            Some(ScopeModel::Names(names)) => {
                assert(dirs.contains_key(dir));
                assert(is_sorted_scope(dirs[dir]));
                lemma_inserted_rises::<Vec<u8>>(names, name);
            },
            _ => {},
        }
        assert(is_sorted_scope(scope_with(dirs.get(dir), name)));
        let now = dirs_named(dirs, dir, name);
        assert forall|d: Seq<Seq<u8>>| #[trigger] now.contains_key(d) implies is_sorted_scope(now[d]) by {
            if d != dir {
                assert(dirs.contains_key(d));
            }
        }
    }
}

proof fn lemma_scope_sorted(a: Option<ScopeModel>, b: Option<ScopeModel>)
    requires
        a matches Some(s) ==> is_sorted_scope(s),
        b matches Some(s) ==> is_sorted_scope(s),
    ensures
        merged_scope(a, b) matches Some(s) ==> is_sorted_scope(s),
{
    match (a, b) {
        (Some(ScopeModel::Names(x)), Some(ScopeModel::Names(y))) => {
            lemma_inserted_all_rises::<Vec<u8>>(x, y);
        },
        (None, Some(ScopeModel::Names(y))) => {
            lemma_inserted_all_rises::<Vec<u8>>(Seq::empty(), y);
        },
        _ => {},
    }
}

proof fn lemma_get(b: BatchModel, d: Seq<Seq<u8>>)
    requires
        is_sorted(b),
    ensures
        b.dirs.get(d) matches Some(s) ==> is_sorted_scope(s),
{
    if b.dirs.contains_key(d) {
        assert(is_sorted_scope(b.dirs[d]));
    }
}

/// Every batch that is built step by step is sorted: an empty one and a full
/// one are, and whatever is added, or merged, leaves it so.
pub proof fn law_a_batch_stays_sorted(
    a: BatchModel,
    b: BatchModel,
    dir: Seq<Seq<u8>>,
    name: Seq<u8>,
    handle: Seq<u8>,
    carried: Option<Seq<u8>>,
)
    requires
        is_sorted(a),
        is_sorted(b),
    ensures
        is_sorted(no_batch()),
        is_sorted(BatchModel { full: true, ..no_batch() }),
        is_sorted(with_name(a, dir, name)),
        is_sorted(BatchModel { dirs: a.dirs.insert(dir, ScopeModel::Whole), ..a }),
        is_sorted(BatchModel { trees: inserted::<RelPath>(a.trees, dir), ..a }),
        is_sorted(BatchModel { objects: inserted::<FileHandle>(a.objects, handle), ..a }),
        is_sorted(with_written(a, dir, name, carried)),
        is_sorted(merged(a, b)),
{
    lemma_named_sorted(a.dirs, dir, name);
    lemma_inserted_rises::<RelPath>(a.trees, dir);
    lemma_inserted_rises::<FileHandle>(a.objects, handle);
    lemma_inserted_rises::<RelPath>(a.written_rels, dir.push(name));
    if let Some(h) = carried {
        lemma_inserted_rises::<FileHandle>(a.objects, h);
        lemma_inserted_rises::<FileHandle>(a.written_handles, h);
    }
    lemma_inserted_all_rises::<RelPath>(a.trees, b.trees);
    lemma_inserted_all_rises::<FileHandle>(a.objects, b.objects);
    lemma_inserted_all_rises::<FileHandle>(a.written_handles, b.written_handles);
    lemma_inserted_all_rises::<RelPath>(a.written_rels, b.written_rels);
    let all = merged(a, b);
    assert forall|d: Seq<Seq<u8>>| #[trigger] all.dirs.contains_key(d) implies is_sorted_scope(
        all.dirs[d],
    ) by {
        lemma_get(a, d);
        lemma_get(b, d);
        lemma_scope_sorted(a.dirs.get(d), b.dirs.get(d));
    }
}

/// Two lists merged hold what either held, in one order.
proof fn lemma_lists_commute<K: Ordered>(s: Seq<K::V>, t: Seq<K::V>)
    requires
        rising::<K>(s),
        rising::<K>(t),
    ensures
        inserted_all::<K>(s, t) == inserted_all::<K>(t, s),
{
    lemma_inserted_all_rises::<K>(s, t);
    lemma_inserted_all_rises::<K>(t, s);
    let x = inserted_all::<K>(s, t);
    let y = inserted_all::<K>(t, s);
    assert forall|v: K::V| #[trigger] x.contains(v) <==> y.contains(v) by {
        lemma_inserted_all_holds::<K>(s, t, v);
        lemma_inserted_all_holds::<K>(t, s, v);
    }
    lemma_rising_lists_agree::<K>(x, y);
}

proof fn lemma_lists_associate<K: Ordered>(s: Seq<K::V>, t: Seq<K::V>, u: Seq<K::V>)
    requires
        rising::<K>(s),
        rising::<K>(t),
        rising::<K>(u),
    ensures
        inserted_all::<K>(inserted_all::<K>(s, t), u) == inserted_all::<K>(
            s,
            inserted_all::<K>(t, u),
        ),
{
    let st = inserted_all::<K>(s, t);
    let tu = inserted_all::<K>(t, u);
    let x = inserted_all::<K>(st, u);
    let y = inserted_all::<K>(s, tu);
    lemma_inserted_all_rises::<K>(s, t);
    lemma_inserted_all_rises::<K>(st, u);
    lemma_inserted_all_rises::<K>(s, tu);
    assert forall|v: K::V| #[trigger] x.contains(v) <==> y.contains(v) by {
        lemma_inserted_all_holds::<K>(s, t, v);
        lemma_inserted_all_holds::<K>(st, u, v);
        lemma_inserted_all_holds::<K>(t, u, v);
        lemma_inserted_all_holds::<K>(s, tu, v);
    }
    lemma_rising_lists_agree::<K>(x, y);
}

proof fn lemma_list_absorbs<K: Ordered>(s: Seq<K::V>)
    requires
        rising::<K>(s),
    ensures
        inserted_all::<K>(s, s) == s,
        inserted_all::<K>(Seq::empty(), s) == s,
{
    let none = Seq::<K::V>::empty();
    lemma_inserted_all_rises::<K>(s, s);
    lemma_inserted_all_rises::<K>(none, s);
    let x = inserted_all::<K>(s, s);
    let y = inserted_all::<K>(none, s);
    assert forall|v: K::V| #[trigger] x.contains(v) <==> s.contains(v) by {
        lemma_inserted_all_holds::<K>(s, s, v);
    }
    assert forall|v: K::V| #[trigger] y.contains(v) <==> s.contains(v) by {
        lemma_inserted_all_holds::<K>(none, s, v);
    }
    lemma_rising_lists_agree::<K>(x, s);
    lemma_rising_lists_agree::<K>(y, s);
}

/// The directories' scopes are the same.
spec fn same_dirs(a: Map<Seq<Seq<u8>>, ScopeModel>, b: Map<Seq<Seq<u8>>, ScopeModel>) -> bool {
    forall|d: Seq<Seq<u8>>| #[trigger] a.get(d) == b.get(d)
}

proof fn lemma_same_dirs(a: Map<Seq<Seq<u8>>, ScopeModel>, b: Map<Seq<Seq<u8>>, ScopeModel>)
    requires
        same_dirs(a, b),
    ensures
        a == b,
{
    assert forall|d: Seq<Seq<u8>>| #[trigger] a.contains_key(d) == b.contains_key(d) && (
    a.contains_key(d) ==> a[d] == b[d]) by {
        assert(a.get(d) == b.get(d));
    }
    assert(a =~= b);
}

/// A directory's scope in two batches merged.
proof fn lemma_merged_dir(a: BatchModel, b: BatchModel, d: Seq<Seq<u8>>)
    ensures
        merged(a, b).dirs.get(d) == merged_scope(a.dirs.get(d), b.dirs.get(d)),
{
}

proof fn lemma_scopes_commute(a: Option<ScopeModel>, b: Option<ScopeModel>)
    requires
        a matches Some(s) ==> is_sorted_scope(s),
        b matches Some(s) ==> is_sorted_scope(s),
    ensures
        merged_scope(a, b) == merged_scope(b, a),
{
    match (a, b) {
        (Some(ScopeModel::Names(x)), Some(ScopeModel::Names(y))) => {
            lemma_lists_commute::<Vec<u8>>(x, y);
        },
        (None, Some(ScopeModel::Names(y))) => {
            lemma_list_absorbs::<Vec<u8>>(y);
        },
        (Some(ScopeModel::Names(x)), None) => {
            lemma_list_absorbs::<Vec<u8>>(x);
        },
        _ => {},
    }
}

proof fn lemma_scopes_associate(a: Option<ScopeModel>, b: Option<ScopeModel>, c: Option<ScopeModel>)
    requires
        a matches Some(s) ==> is_sorted_scope(s),
        b matches Some(s) ==> is_sorted_scope(s),
        c matches Some(s) ==> is_sorted_scope(s),
    ensures
        merged_scope(merged_scope(a, b), c) == merged_scope(a, merged_scope(b, c)),
{
    if let Some(ScopeModel::Names(y)) = b {
        lemma_list_absorbs::<Vec<u8>>(y);
        if let Some(ScopeModel::Names(z)) = c {
            lemma_inserted_all_rises::<Vec<u8>>(y, z);
            lemma_list_absorbs::<Vec<u8>>(inserted_all::<Vec<u8>>(y, z));
            if let Some(ScopeModel::Names(x)) = a {
                lemma_lists_associate::<Vec<u8>>(x, y, z);
            }
        }
    }
    if let Some(ScopeModel::Names(z)) = c {
        lemma_list_absorbs::<Vec<u8>>(z);
    }
}

/// Which of two batches is merged into the other does not matter.
pub proof fn law_batches_merge_either_way(a: BatchModel, b: BatchModel)
    requires
        is_sorted(a),
        is_sorted(b),
    ensures
        merged(a, b) == merged(b, a),
{
    lemma_lists_commute::<RelPath>(a.trees, b.trees);
    lemma_lists_commute::<FileHandle>(a.objects, b.objects);
    lemma_lists_commute::<FileHandle>(a.written_handles, b.written_handles);
    lemma_lists_commute::<RelPath>(a.written_rels, b.written_rels);
    let x = merged(a, b).dirs;
    let y = merged(b, a).dirs;
    assert forall|d: Seq<Seq<u8>>| #[trigger] x.get(d) == y.get(d) by {
        lemma_get(a, d);
        lemma_get(b, d);
        lemma_merged_dir(a, b, d);
        lemma_merged_dir(b, a, d);
        lemma_scopes_commute(a.dirs.get(d), b.dirs.get(d));
    }
    lemma_same_dirs(x, y);
}

/// Which of three batches are merged first does not matter.
pub proof fn law_batches_merge_in_any_order(a: BatchModel, b: BatchModel, c: BatchModel)
    requires
        is_sorted(a),
        is_sorted(b),
        is_sorted(c),
    ensures
        merged(merged(a, b), c) == merged(a, merged(b, c)),
{
    lemma_lists_associate::<RelPath>(a.trees, b.trees, c.trees);
    lemma_lists_associate::<FileHandle>(a.objects, b.objects, c.objects);
    lemma_lists_associate::<FileHandle>(a.written_handles, b.written_handles, c.written_handles);
    lemma_lists_associate::<RelPath>(a.written_rels, b.written_rels, c.written_rels);
    let ab = merged(a, b);
    let bc = merged(b, c);
    let x = merged(ab, c).dirs;
    let y = merged(a, bc).dirs;
    assert forall|d: Seq<Seq<u8>>| #[trigger] x.get(d) == y.get(d) by {
        lemma_get(a, d);
        lemma_get(b, d);
        lemma_get(c, d);
        lemma_merged_dir(a, b, d);
        lemma_merged_dir(b, c, d);
        lemma_merged_dir(ab, c, d);
        lemma_merged_dir(a, bc, d);
        lemma_scopes_associate(a.dirs.get(d), b.dirs.get(d), c.dirs.get(d));
    }
    lemma_same_dirs(x, y);
}

/// A batch merged into itself, or with an empty one, is what it was.
pub proof fn law_merging_nothing_new_changes_nothing(a: BatchModel)
    requires
        is_sorted(a),
    ensures
        merged(a, a) == a,
        merged(a, no_batch()) == a,
        merged(no_batch(), a) == a,
{
    lemma_list_absorbs::<RelPath>(a.trees);
    lemma_list_absorbs::<FileHandle>(a.objects);
    lemma_list_absorbs::<FileHandle>(a.written_handles);
    lemma_list_absorbs::<RelPath>(a.written_rels);
    let x = merged(a, a).dirs;
    let y = merged(a, no_batch()).dirs;
    let z = merged(no_batch(), a).dirs;
    assert forall|d: Seq<Seq<u8>>|
        #![trigger x.get(d)]
        #![trigger y.get(d)]
        #![trigger z.get(d)]
        x.get(d) == a.dirs.get(d) && y.get(d) == a.dirs.get(d) && z.get(d) == a.dirs.get(d) by {
        lemma_get(a, d);
        lemma_merged_dir(a, a, d);
        lemma_merged_dir(a, no_batch(), d);
        lemma_merged_dir(no_batch(), a, d);
        if let Some(ScopeModel::Names(names)) = a.dirs.get(d) {
            lemma_list_absorbs::<Vec<u8>>(names);
        }
    }
    lemma_same_dirs(x, a.dirs);
    lemma_same_dirs(y, a.dirs);
    lemma_same_dirs(z, a.dirs);
}

/// A directory that both batches examine by name is examined by the names of
/// either.
pub proof fn law_names_gather(
    a: BatchModel,
    b: BatchModel,
    dir: Seq<Seq<u8>>,
    x: Seq<Seq<u8>>,
    y: Seq<Seq<u8>>,
    name: Seq<u8>,
)
    requires
        a.dirs.get(dir) == Some(ScopeModel::Names(x)),
        b.dirs.get(dir) == Some(ScopeModel::Names(y)),
    ensures
        merged(a, b).dirs.get(dir) matches Some(ScopeModel::Names(all)) && (all.contains(name) <==> (
        x.contains(name) || y.contains(name))),
{
    lemma_merged_dir(a, b, dir);
    lemma_inserted_all_holds::<Vec<u8>>(x, y, name);
}

} // verus!
