//! What is unchanged changes nothing: a folder in step with the base is
//! examined without a question and with nothing to record.

use vstd::prelude::*;
use crate::local::content::{
    being_sent, checking, dir_id, finding, found_change, noting, same_version, size_changed,
    time_changed, was_written, Content,
};
use crate::local::entry::{EntryModel, State, StateAttr};
use crate::local::examine::{
    carriers, class_of, classifying, depth_of, depth_slot, finding_all, found_by_depth,
    ids_carried, listing_all, resolving_all, skip_examined, starting, tidying, unlisting,
    without_id, Class,
};
use crate::local::facts::{Checked, HashedModel, StopModel};
use crate::local::finish::{examining, guarding, recorded};
use crate::local::missing::{
    expected_in, in_scope, items_in, losing_items, losing_rows, missing_from,
};
use crate::local::order::in_order;
use crate::local::resolve::{
    by_path, estranging_others, evident, group_at, group_of_handle, grouped, grouping, groups_of,
    is_at, linking, name_in_group, of_kind, path_slot, resolving, taking,
};
use crate::local::run::{choosing, consuming, index_at, is_settled, RunModel, SceneModel};
use crate::local::snapshot_text;
use crate::local::world::{expected_rel, item_of, row_of, ItemModel};
use crate::os::Type;
use crate::path::{dir_of, parent_of, PathModel};
use crate::sorted::{inserted, lemma_inserted_holds};
use crate::text::text_of;
use crate::tree::{Kind, OpModel, OutboxKind, Placement, RowModel};

verus! {

/// The `p`th directory read: whole, or after those by name.
pub open spec fn dir_read(sc: SceneModel, p: int) -> PathModel {
    if p < sc.whole.len() {
        sc.whole[p]
    } else {
        sc.named_dirs[p - sc.whole.len()]
    }
}

/// The names read in the `p`th directory: nothing for the whole of it.
pub open spec fn names_read(sc: SceneModel, p: int) -> Option<Seq<Seq<u8>>> {
    if p < sc.whole.len() {
        None
    } else {
        Some(sc.named[dir_read(sc, p)])
    }
}

/// `rel` was looked for.
pub open spec fn looked_for(sc: SceneModel, rel: PathModel) -> bool {
    exists|p: int|
        0 <= p < sc.whole.len() + sc.named_dirs.len() && parent_of(rel) == Some(
            #[trigger] dir_read(sc, p),
        ) && in_scope(sc, names_read(sc, p), rel)
}

/// The entry stands in the directory of item `parent`.
pub open spec fn is_in(sc: SceneModel, entries: Seq<EntryModel>, e: EntryModel, parent: Seq<char>) -> bool {
    if dir_of(e.rel).len() == 0 {
        parent == sc.w.root_id
    } else {
        index_at(entries, dir_of(e.rel)) matches Some(j) && j < entries.len() && class_of(
            sc,
            entries[j as int],
        ) == Class::Item(parent)
    }
}

/// The entry's content is the version the base has, as far as a look tells: a
/// placeholder of the right size, or a downloaded file as it was stamped.
pub open spec fn is_unchanged(sc: SceneModel, e: EntryModel, base: RowModel) -> bool {
    match e.state {
        StateAttr::Known(State::OnlineOnly) => e.size == base.size && e.nlink <= 1,
        StateAttr::Known(State::Hydrated) => !size_changed(e) && !time_changed(e) && !was_written(
            sc,
            e,
        ),
        _ => false,
    }
}

/// The entry is what the base has of item `id`, where it has it.
pub open spec fn is_home(sc: SceneModel, entries: Seq<EntryModel>, e: EntryModel, id: Seq<char>) -> bool {
    match item_of(sc.w, id) {
        None => false,
        Some(item) => {
            &&& expected_rel(sc.w, id) == Some(e.rel)
            &&& item.row.name == text_of(e.name)
            &&& item.row.parent_id matches Some(parent) && is_in(sc, entries, e, parent)
            &&& e.handle is Some ==> e.handle == item.handle
            &&& if item.row.kind == Kind::Folder {
                e.ty == Type::Dir
            } else {
                e.ty == Type::File && is_unchanged(sc, e, item.row)
            }
        },
    }
}

/// The folder, as far as it was read, is what the base has: nothing waits to be
/// sent, every entry is an item's, in its place and unchanged, or the daemon's
/// own, no two are the same item, and every item that was looked for was found.
pub open spec fn is_in_step(sc: SceneModel, entries: Seq<EntryModel>) -> bool {
    &&& sc.w.rows.len() == 0
    &&& forall|i: int|
        0 <= i < entries.len() ==> match #[trigger] class_of(sc, entries[i]) {
            Class::Passed => true,
            Class::Item(id) => is_home(sc, entries, entries[i], id),
            _ => false,
        }
    &&& forall|i: int, j: int|
        0 <= i < entries.len() && 0 <= j < entries.len() && #[trigger] class_of(sc, entries[i])
            == #[trigger] class_of(sc, entries[j]) && class_of(sc, entries[i]) is Item ==> i == j
    &&& forall|c: int|
        0 <= c < sc.w.items.len() ==> is_found(sc, entries, #[trigger] sc.w.items[c])
    &&& forall|k: int|
        0 <= k < sc.w.skipped.len() ==> !skip_examined(sc, #[trigger] sc.w.skipped[k])
}

/// The item was found if it was looked for.
pub open spec fn is_found(sc: SceneModel, entries: Seq<EntryModel>, item: ItemModel) -> bool {
    (item.row.placement == Placement::Placed && (expected_rel(sc.w, item.row.id) matches Some(rel)
        && looked_for(sc, rel))) ==> exists|i: int|
        0 <= i < entries.len() && #[trigger] class_of(sc, entries[i]) == Class::Item(item.row.id)
}

proof fn lemma_nothing_listed(sc: SceneModel, run: RunModel, i: int)
    requires
        is_in_step(sc, run.entries),
        0 <= i,
    ensures
        listing_all(sc, run, i) == run,
    decreases run.entries.len() - i,
{
    if i < run.entries.len() {
        lemma_nothing_listed(sc, run, i + 1);
        assert(!(class_of(sc, run.entries[i]) is Listed));
    }
}

proof fn lemma_nothing_new(sc: SceneModel, entries: Seq<EntryModel>, i: int)
    requires
        is_in_step(sc, entries),
        0 <= i,
    ensures
        without_id(sc, entries, i, Seq::empty()) == Seq::<usize>::empty(),
    decreases entries.len() - i,
{
    if i < entries.len() {
        lemma_nothing_new(sc, entries, i + 1);
        assert(!(class_of(sc, entries[i]) is New));
    }
}

/// The ids carried are those of the entries.
proof fn lemma_ids(sc: SceneModel, entries: Seq<EntryModel>, i: int, ids: Seq<Seq<char>>, id: Seq<char>)
    requires
        0 <= i,
    ensures
        ids_carried(sc, entries, i, ids).contains(id) <==> (ids.contains(id) || exists|j: int|
            i <= j < entries.len() && #[trigger] class_of(sc, entries[j]) == Class::Item(id)),
    decreases entries.len() - i,
{
    if i < entries.len() {
        match class_of(sc, entries[i]) {
            Class::Item(own) => {
                lemma_inserted_holds::<String>(ids, own, id);
                lemma_ids(sc, entries, i + 1, inserted::<String>(ids, own), id);
            },
            _ => {
                lemma_ids(sc, entries, i + 1, ids, id);
            },
        }
    }
}

/// Only entry `at` carries its id.
proof fn lemma_one_carrier(sc: SceneModel, entries: Seq<EntryModel>, id: Seq<char>, at: int, i: int, found: Seq<usize>)
    requires
        is_in_step(sc, entries),
        entries.len() <= usize::MAX,
        0 <= at < entries.len(),
        class_of(sc, entries[at]) == Class::Item(id),
        0 <= i,
    ensures
        carriers(sc, entries, id, i, found) == if i <= at {
            found.push(at as usize)
        } else {
            found
        },
    decreases entries.len() - i,
{
    if i < entries.len() {
        if class_of(sc, entries[i]) == Class::Item(id) {
            assert(i == at);
            lemma_one_carrier(sc, entries, id, at, i + 1, found.push(i as usize));
        } else {
            lemma_one_carrier(sc, entries, id, at, i + 1, found);
        }
    }
}

/// The one entry with an item's id, where the item is expected, is the item.
proof fn lemma_resolved(sc: SceneModel, run: RunModel, id: Seq<char>, at: usize)
    requires
        at < run.entries.len(),
        is_home(sc, run.entries, run.entries[at as int], id),
    ensures
        resolving(sc, run, id, seq![at]) == Ok::<_, StopModel>(
            (consuming(choosing(run, id, at), at), Some(at)),
        ),
{
    let list = seq![at];
    let item = item_of(sc.w, id)->0;
    let base = item.row;
    let want = if base.kind == Kind::Folder {
        Type::Dir
    } else {
        Type::File
    };
    let e = run.entries[at as int];
    let none = Seq::<usize>::empty();
    reveal_with_fuel(of_kind, 3);
    assert(none.push(at) =~= list);
    assert(of_kind(sc, run, want, list, 0, none) == Ok::<_, StopModel>((run, list)));
    let entries = run.entries;
    let no_groups = Seq::<Seq<usize>>::empty();
    reveal_with_fuel(grouping, 3);
    assert(grouped(entries, no_groups, at) =~= seq![list]);
    assert(grouping(entries, list, 0, no_groups) =~= seq![list]);
    reveal_with_fuel(by_path, 3);
    assert(by_path(entries, list, 1) =~= list) by {
        assert(by_path(entries, list, 0) =~= none);
        assert(path_slot(entries, none, at, 0) == 0);
        assert(none.insert(0, at) =~= list);
    }
    let groups = groups_of(entries, list);
    assert(groups =~= seq![list]);
    let expected = expected_rel(sc.w, id);
    assert(is_at(entries, groups[0], expected)) by {
        assert(entries[groups[0][0] as int].rel == e.rel);
    }
    reveal_with_fuel(group_of_handle, 2);
    reveal_with_fuel(group_at, 2);
    assert(evident(entries, groups, item.handle, expected, item.located) == Some(0int));
    reveal_with_fuel(name_in_group, 2);
    assert(name_in_group(entries, groups[0], expected, 0) == at);
    reveal_with_fuel(linking, 3);
    reveal_with_fuel(estranging_others, 3);
    assert(taking(sc, run, id, groups, 0, expected) == Ok::<_, StopModel>(
        (consuming(choosing(run, id, at), at), Some(at)),
    ));
}

/// `run` differs from `from` only in which entries are taken, and for what.
spec fn only_took(from: RunModel, run: RunModel) -> bool {
    run == (RunModel { chosen: run.chosen, consumed: run.consumed, ..from })
}

/// The items of the list are entries that carry their ids.
spec fn are_items(sc: SceneModel, entries: Seq<EntryModel>, found: Seq<(Seq<char>, usize)>) -> bool {
    forall|k: int|
        0 <= k < found.len() ==> (#[trigger] found[k]).1 < entries.len() && class_of(
            sc,
            entries[found[k].1 as int],
        ) == Class::Item(found[k].0)
}

/// Every id chosen so far is chosen its entry.
spec fn chose_carriers(sc: SceneModel, run: RunModel) -> bool {
    forall|id: Seq<char>| #[trigger]
        run.chosen.contains_key(id) ==> run.chosen[id] < run.entries.len() && class_of(
            sc,
            run.entries[run.chosen[id] as int],
        ) == Class::Item(id)
}

proof fn lemma_all_resolved(
    sc: SceneModel,
    run: RunModel,
    ids: Seq<Seq<char>>,
    k: int,
    found: Seq<(Seq<char>, usize)>,
)
    requires
        is_in_step(sc, run.entries),
        run.entries.len() <= usize::MAX,
        0 <= k <= ids.len(),
        are_items(sc, run.entries, found),
        chose_carriers(sc, run),
        forall|m: int|
            0 <= m < ids.len() ==> exists|j: int|
                0 <= j < run.entries.len() && class_of(sc, run.entries[j]) == Class::Item(
                    #[trigger] ids[m],
                ),
    ensures
        match resolving_all(sc, run, run.entries, ids, k, found) {
            Ok((known, all)) => {
                &&& only_took(run, known)
                &&& chose_carriers(sc, known)
                &&& are_items(sc, run.entries, all)
                &&& forall|id: Seq<char>| run.chosen.contains_key(id) ==> #[trigger] known.chosen.contains_key(id)
                &&& forall|m: int| k <= m < ids.len() ==> known.chosen.contains_key(#[trigger] ids[m])
            },
            Err(_) => false,
        },
    decreases ids.len() - k,
{
    if k < ids.len() {
        let id = ids[k];
        let j = choose|j: int|
            0 <= j < run.entries.len() && class_of(sc, run.entries[j]) == Class::Item(id);
        lemma_one_carrier(sc, run.entries, id, j, 0, Seq::empty());
        let at = j as usize;
        assert(Seq::<usize>::empty().push(at) =~= seq![at]);
        lemma_resolved(sc, run, id, at);
        let next = consuming(choosing(run, id, at), at);
        lemma_all_resolved(sc, next, ids, k + 1, found.push((id, at)));
    }
}

proof fn lemma_slot(depths: Seq<nat>, depth: nat, p: int)
    requires
        0 <= p <= depths.len(),
    ensures
        p <= depth_slot(depths, depth, p) <= depths.len(),
    decreases depths.len() - p,
{
    if p < depths.len() {
        lemma_slot(depths, depth, p + 1);
    }
}

proof fn lemma_found_by_depth(sc: SceneModel, entries: Seq<EntryModel>, found: Seq<(Seq<char>, usize)>, n: int)
    requires
        are_items(sc, entries, found),
        0 <= n <= found.len(),
    ensures
        are_items(sc, entries, found_by_depth(entries, found, n)),
    decreases n,
{
    if n > 0 {
        lemma_found_by_depth(sc, entries, found, n - 1);
        let rest = found_by_depth(entries, found, n - 1);
        let depths = Seq::new(rest.len(), |p: int| depth_of(entries, rest[p].1));
        lemma_slot(depths, depth_of(entries, found[n - 1].1), 0);
    }
}

/// Finding an item at home, its directory chosen, records nothing.
proof fn lemma_found_at_home(sc: SceneModel, run: RunModel, id: Seq<char>, at: usize)
    requires
        is_in_step(sc, run.entries),
        chose_carriers(sc, run),
        forall|j: int, own: Seq<char>|
            0 <= j < run.entries.len() && #[trigger] class_of(sc, run.entries[j]) == Class::Item(own)
                ==> #[trigger] run.chosen.contains_key(own),
        at < run.entries.len(),
        class_of(sc, run.entries[at as int]) == Class::Item(id),
    ensures
        item_of(sc.w, id) matches Some(item) && finding(sc, run, id, item.row, at) == Ok::<
            _,
            StopModel,
        >(run),
{
    let e = run.entries[at as int];
    assert(is_home(sc, run.entries, e, id));
    let item = item_of(sc.w, id)->0;
    let parent = item.row.parent_id->0;
    assert(row_of(sc.w, id) is None);
    assert(noting(sc, run, id, at) == run);
    assert(dir_id(sc, run, dir_of(e.rel)) == Some(parent)) by {
        if dir_of(e.rel).len() > 0 {
            let j = index_at(run.entries, dir_of(e.rel))->0;
            assert(class_of(sc, run.entries[j as int]) == Class::Item(parent));
            assert(run.chosen.contains_key(parent));
            let c = run.chosen[parent];
            assert(class_of(sc, run.entries[c as int]) == Class::Item(parent));
            assert(c == j);
        }
    }
    if e.ty == Type::File {
        assert(checking(sc, run, id, item.row, at) == Ok::<_, StopModel>(
            (run, Content::Same),
        ));
    }
}

proof fn lemma_all_found_at_home(sc: SceneModel, run: RunModel, found: Seq<(Seq<char>, usize)>, k: int)
    requires
        is_in_step(sc, run.entries),
        chose_carriers(sc, run),
        forall|j: int, own: Seq<char>|
            0 <= j < run.entries.len() && #[trigger] class_of(sc, run.entries[j]) == Class::Item(own)
                ==> #[trigger] run.chosen.contains_key(own),
        are_items(sc, run.entries, found),
        0 <= k,
    ensures
        finding_all(sc, run, found, k) == Ok::<_, StopModel>(run),
    decreases found.len() - k,
{
    if k < found.len() {
        lemma_found_at_home(sc, run, found[k].0, found[k].1);
        lemma_all_found_at_home(sc, run, found, k + 1);
    }
}

/// The items expected in a directory that was read have been chosen entries.
proof fn lemma_expected_chosen(
    sc: SceneModel,
    run: RunModel,
    parent: Seq<char>,
    p: int,
    c: int,
    found: Seq<(Seq<char>, PathModel)>,
)
    requires
        is_in_step(sc, run.entries),
        forall|j: int, own: Seq<char>|
            0 <= j < run.entries.len() && #[trigger] class_of(sc, run.entries[j]) == Class::Item(own)
                ==> #[trigger] run.chosen.contains_key(own),
        0 <= p < sc.whole.len() + sc.named_dirs.len(),
        0 <= c,
        forall|m: int| 0 <= m < found.len() ==> run.chosen.contains_key((#[trigger] found[m]).0),
    ensures
        ({
            let all = expected_in(sc, parent, dir_read(sc, p), names_read(sc, p), c, found);
            forall|m: int| 0 <= m < all.len() ==> run.chosen.contains_key((#[trigger] all[m]).0)
        }),
    decreases sc.w.items.len() - c,
{
    if c < sc.w.items.len() {
        let item = sc.w.items[c];
        let row = item.row;
        let dir = dir_read(sc, p);
        let names = names_read(sc, p);
        assert(is_found(sc, run.entries, sc.w.items[c]));
        let here = if row.parent_id == Some(parent) && row.placement == Placement::Placed {
            match expected_rel(sc.w, row.id) {
                Some(rel) => if parent_of(rel) == Some(dir) && in_scope(sc, names, rel) {
                    found.push((row.id, rel))
                } else {
                    found
                },
                None => found,
            }
        } else {
            found
        };
        assert forall|m: int| 0 <= m < here.len() implies run.chosen.contains_key(
            (#[trigger] here[m]).0,
        ) by {
            if m < found.len() {
                assert(here[m] == found[m]);
            } else {
                let rel = expected_rel(sc.w, row.id)->0;
                assert(dir == dir_read(sc, p));
                assert(looked_for(sc, rel));
                let i = choose|i: int|
                    0 <= i < run.entries.len() && #[trigger] class_of(sc, run.entries[i])
                        == Class::Item(row.id);
                assert(class_of(sc, run.entries[i]) == Class::Item(row.id));
                assert(run.chosen.contains_key(row.id));
            }
        }
        assert(expected_in(sc, parent, dir, names, c, found) == expected_in(
            sc,
            parent,
            dir,
            names,
            c + 1,
            here,
        ));
        lemma_expected_chosen(sc, run, parent, p, c + 1, here);
    }
}

proof fn lemma_none_lost(sc: SceneModel, run: RunModel, found: Seq<(Seq<char>, PathModel)>, k: int)
    requires
        forall|m: int| 0 <= m < found.len() ==> run.chosen.contains_key((#[trigger] found[m]).0),
        0 <= k,
    ensures
        losing_items(sc, run, found, k) == Ok::<_, StopModel>(run),
    decreases found.len() - k,
{
    if k < found.len() {
        assert(is_settled(run, found[k].0));
        lemma_none_lost(sc, run, found, k + 1);
    }
}

proof fn lemma_nothing_missing(sc: SceneModel, run: RunModel, p: int)
    requires
        is_in_step(sc, run.entries),
        forall|j: int, own: Seq<char>|
            0 <= j < run.entries.len() && #[trigger] class_of(sc, run.entries[j]) == Class::Item(own)
                ==> #[trigger] run.chosen.contains_key(own),
        0 <= p,
    ensures
        missing_from(sc, run, p) == Ok::<_, StopModel>(run),
    decreases sc.whole.len() + sc.named_dirs.len() - p,
{
    if p < sc.whole.len() + sc.named_dirs.len() {
        let dir = dir_read(sc, p);
        let names = names_read(sc, p);
        let none = Seq::<(Seq<char>, PathModel)>::empty();
        match dir_id(sc, run, dir) {
            Some(parent) => {
                lemma_expected_chosen(sc, run, parent, p, 0, none);
            },
            None => {},
        }
        let found = items_in(sc, run, dir, names);
        lemma_none_lost(sc, run, found, 0);
        assert(losing_rows(sc, run, dir, names, 0) == Ok::<_, StopModel>(run));
        lemma_nothing_missing(sc, run, p + 1);
    }
}

proof fn lemma_nothing_unlisted(sc: SceneModel, run: RunModel, k: int)
    requires
        forall|m: int|
            0 <= m < sc.w.skipped.len() ==> !skip_examined(sc, #[trigger] sc.w.skipped[m]),
        0 <= k,
    ensures
        unlisting(sc, run, k) == run,
    decreases sc.w.skipped.len() - k,
{
    if k < sc.w.skipped.len() {
        lemma_nothing_unlisted(sc, run, k + 1);
    }
}

/// A folder in step with the base, whatever of it is examined, puts no question
/// and records nothing: no row, no skip, nothing to look at again.
pub proof fn law_a_folder_in_step_changes_nothing(sc: SceneModel, entries: Seq<EntryModel>, renewed: bool)
    requires
        entries.len() <= usize::MAX,
        is_in_step(sc, entries),
    ensures
        examining(sc, entries, renewed) == Ok::<_, StopModel>(
            starting(entries, sc.unreadable, renewed).out,
        ),
        starting(entries, sc.unreadable, renewed).out.ops.len() == 0,
{
    let run = starting(entries, sc.unreadable, renewed);
    lemma_nothing_listed(sc, run, 0);
    let ids = ids_carried(sc, entries, 0, Seq::empty());
    assert forall|m: int| 0 <= m < ids.len() implies exists|j: int|
        0 <= j < run.entries.len() && class_of(sc, run.entries[j]) == Class::Item(#[trigger] ids[m]) by {
        lemma_ids(sc, entries, 0, Seq::empty(), ids[m]);
        assert(ids.contains(ids[m]));
    }
    lemma_all_resolved(sc, run, ids, 0, Seq::empty());
    let (known, found) = resolving_all(sc, run, entries, ids, 0, Seq::empty())->Ok_0;
    assert forall|j: int, own: Seq<char>|
        0 <= j < known.entries.len() && #[trigger] class_of(sc, known.entries[j]) == Class::Item(own)
            implies #[trigger] known.chosen.contains_key(own) by {
        lemma_ids(sc, entries, 0, Seq::empty(), own);
        let m = choose|m: int| 0 <= m < ids.len() && ids[m] == own;
        assert(known.chosen.contains_key(ids[m]));
    }
    lemma_found_by_depth(sc, entries, found, found.len() as int);
    lemma_all_found_at_home(sc, known, found_by_depth(entries, found, found.len() as int), 0);
    lemma_nothing_missing(sc, known, 0);
    lemma_nothing_new(sc, entries, 0);
    let new = without_id(sc, entries, 0, Seq::empty()) + known.fresh;
    assert(new =~= Seq::<usize>::empty());
    let met = RunModel { fresh: Seq::empty(), ..known };
    assert(met =~= known);
    lemma_nothing_unlisted(sc, met, 0);
    let tidied = tidying(sc, met);
    assert(tidied =~= known);
    assert(classifying(sc, run) == Ok::<_, StopModel>(known));
    assert(guarding(sc.w, known) == known);
    assert(in_order(known.detections) =~= Seq::empty());
    reveal(Seq::filter);
    assert(recorded(known) =~= Seq::<OpModel>::empty());
}

/// A file whose time changed but whose content is the base's uploads nothing:
/// it is checked by its hash, is stamped anew, and what else is said of it says
/// nothing of its content.
pub proof fn law_a_touch_uploads_nothing(sc: SceneModel, run: RunModel, id: Seq<char>, base: RowModel, i: usize)
    requires
        i < run.entries.len(),
        run.entries[i as int].state == StateAttr::Known(State::Hydrated),
        !size_changed(run.entries[i as int]),
        time_changed(run.entries[i as int]) || was_written(sc, run.entries[i as int]),
        same_version(base, run.entries[i as int].ctag),
        !being_sent(
            sc.w,
            id,
            snapshot_text(
                run.entries[i as int].size,
                run.entries[i as int].mtime_sec,
                run.entries[i as int].mtime_nsec,
            ),
        ),
        sc.f.checked_of(i) matches Some(Checked::Same { state, writing }) && state == Some(
            State::Hydrated,
        ) && writing != Some(true),
        sc.f.hashed_of(i) matches Some(HashedModel::Read(d)) && Some(d.hash) == base.quickxor && d.after
            == d.before,
    ensures
        checking(sc, run, id, base, i) matches Ok((next, content)) && content == Content::Same
            && next.detections == run.detections && next.out.restamp == run.out.restamp.push(
            run.entries[i as int].rel,
        ),
        found_change(sc, run, id, base, i, Content::Same).kind == OutboxKind::Move,
{
}

/// An upload of an item's content found in place is of an edit: the file is
/// downloaded, and a writer has it open, or its size, the version it comes from
/// or its hash is not the base's.
pub proof fn law_only_an_edit_is_uploaded(sc: SceneModel, run: RunModel, id: Seq<char>, base: RowModel, i: usize)
    requires
        i < run.entries.len(),
        finding(sc, run, id, base, i) matches Ok(next) && next.detections.len()
            > run.detections.len() && next.detections.last().kind == OutboxKind::Update,
    ensures
        run.entries[i as int].ty == Type::File,
        run.entries[i as int].state == StateAttr::Known(State::Hydrated),
        sc.f.checked_of(i) matches Some(Checked::Same { state, writing }) && state == Some(
            State::Hydrated,
        ) && (writing == Some(true) || size_changed(run.entries[i as int]) || !same_version(
            base,
            run.entries[i as int].ctag,
        ) || base.quickxor is None || (sc.f.hashed_of(i) matches Some(HashedModel::Read(d))
            && Some(d.hash) != base.quickxor)),
{
}

} // verus!
